use stellar_guesser::setup::InitialSetupStage;

#[test]
fn walkthrough_goes_forward() {
    let mut stage = InitialSetupStage::default();
    assert_eq!(stage, InitialSetupStage::Introduction);
    let mut seen = vec![stage];
    while let Some(next) = stage.next() {
        stage = next;
        seen.push(stage);
    }
    assert_eq!(
        seen,
        vec![
            InitialSetupStage::Introduction,
            InitialSetupStage::Keyboard,
            InitialSetupStage::Community,
            InitialSetupStage::Credits,
            InitialSetupStage::Finished,
        ]
    );
}

#[test]
fn previous_undoes_next() {
    for s in [
        InitialSetupStage::Introduction,
        InitialSetupStage::Keyboard,
        InitialSetupStage::Community,
        InitialSetupStage::Credits,
    ] {
        assert_eq!(s.next().unwrap().previous(), Some(s));
    }
    assert_eq!(InitialSetupStage::Introduction.previous(), None);
    assert_eq!(InitialSetupStage::Finished.next(), None);
}

#[test]
fn only_credits_lead_to_the_end() {
    assert!(InitialSetupStage::Credits.will_next_finish());
    assert!(!InitialSetupStage::Introduction.will_next_finish());
    assert!(!InitialSetupStage::Keyboard.will_next_finish());
    assert!(!InitialSetupStage::Community.will_next_finish());
    assert!(!InitialSetupStage::Finished.will_next_finish());
}
