use meowmic::denoise::{
    choose_model, list_models, load_norm_state, requested_model, save_norm_state, tap_frame_index,
    switch_model_states, FrameWindow, ModelKind, ModelStates, SpectrumHistory, FRAME_SIZE,
};

#[test]
fn offered_models() {
    assert_eq!(list_models(), vec!["RNNoise", "DeepFilterNet3"]);
    assert_eq!(FRAME_SIZE, 480);
}

#[test]
fn deepfilter_needs_its_resources() {
    assert_eq!(choose_model("DeepFilterNet3", true), ModelKind::DeepFilter);
    assert_eq!(choose_model("DeepFilterNet3", false), ModelKind::Rnnoise);
    assert_eq!(choose_model("RNNoise", true), ModelKind::Rnnoise);
    assert_eq!(choose_model("anything", true), ModelKind::Rnnoise);
}

#[test]
fn model_names() {
    assert_eq!(ModelKind::Rnnoise.display_name(), "RNNoise");
    assert_eq!(ModelKind::DeepFilter.display_name(), "DeepFilterNet");
    assert_eq!(requested_model(None), "RNNoise");
    assert_eq!(requested_model(Some("DeepFilterNet3")), "DeepFilterNet3");
}

#[test]
fn norm_state_round_trips() {
    let values = [-60.0f32, -75.5, 0.001, 0.0001];
    let words: Vec<u32> = values.iter().map(|v| v.to_bits()).collect();
    let saved = save_norm_state(&words);
    assert_eq!(saved.len(), 16);
    let mut expected = Vec::new();
    for v in values.iter() {
        expected.extend_from_slice(&v.to_le_bytes());
    }
    assert_eq!(saved, expected);
    let loaded = load_norm_state(&saved, 4).unwrap();
    let back: Vec<f32> = loaded.iter().map(|&w| f32::from_bits(w)).collect();
    assert_eq!(back, values.to_vec());
}

#[test]
fn state_of_the_wrong_size_is_ignored() {
    assert_eq!(load_norm_state(&[0u8; 15], 4), None);
    assert_eq!(load_norm_state(&[], 0), Some(vec![]));
}

#[test]
fn window_pushes_out_the_oldest_frame() {
    let mut w = FrameWindow::new(vec![vec![0.0f32], vec![1.0], vec![2.0]]);
    w.push(vec![3.0]);
    assert_eq!(w.len(), 3);
    assert_eq!(w.get(0), &vec![1.0f32]);
    assert_eq!(w.get(2), &vec![3.0f32]);
}

#[test]
fn taps_read_back_through_the_history() {
    assert_eq!(tap_frame_index(3, 1), Some(2));
    assert_eq!(tap_frame_index(3, 3), Some(0));
    assert_eq!(tap_frame_index(3, 5), Some(0));
    assert_eq!(tap_frame_index(0, 1), None);
    assert_eq!(tap_frame_index(3, 0), None);
}

#[test]
fn history_keeps_the_six_latest_spectra() {
    let mut h: SpectrumHistory<u32> = SpectrumHistory::new();
    for i in 0..8u32 {
        h.push(i);
    }
    assert_eq!(h.len(), 6);
    assert_eq!(*h.get(0), 2);
    assert_eq!(*h.get(5), 7);
}

#[test]
fn saved_model_states_are_found_again() {
    let mut m = ModelStates::new();
    assert_eq!(m.get("RNNoise"), None);
    m.insert("DeepFilterNet", vec![1, 2, 3]);
    m.insert("RNNoise", vec![9]);
    assert_eq!(m.get("DeepFilterNet"), Some(&vec![1, 2, 3]));
    m.insert("DeepFilterNet", vec![4]);
    assert_eq!(m.get("DeepFilterNet"), Some(&vec![4]));
    assert_eq!(m.get("RNNoise"), Some(&vec![9]));
    m.remove("DeepFilterNet");
    assert_eq!(m.get("DeepFilterNet"), None);
    assert_eq!(m.get("RNNoise"), Some(&vec![9]));
    m.remove("Missing");
    assert_eq!(m.get("RNNoise"), Some(&vec![9]));
}

#[test]
fn a_switch_saves_the_outgoing_state_and_restores_the_incoming_one() {
    let mut m = ModelStates::new();
    assert_eq!(switch_model_states(&mut m, "RNNoise", None, "DeepFilterNet"), None);
    assert_eq!(switch_model_states(&mut m, "DeepFilterNet", Some(vec![7, 8]), "RNNoise"), None);
    assert_eq!(switch_model_states(&mut m, "RNNoise", None, "DeepFilterNet"), Some(vec![7, 8]));
    assert_eq!(switch_model_states(&mut m, "DeepFilterNet", Some(vec![9]), "DeepFilterNet"), Some(vec![9]));
}
