use nuko::candidate::Candidate;
use nuko::config::Config;
use nuko::context::ConversionContext;
use nuko::ime::NukoIME;

#[test]
fn new_instance_holds_the_settings() {
    let mut config = Config::default_in("/tmp/nuko");
    config.general.candidate_count = 4;
    let ime = NukoIME::new(config).unwrap();
    assert_eq!(ime.config().general.candidate_count, 4);
    assert_eq!(ime.engine().learning().entry_count(), 0);
}

#[test]
fn register_and_unregister_are_idempotent() {
    let mut ime = NukoIME::new(Config::default_in("")).unwrap();
    assert!(ime.unregister().is_ok());
    assert!(ime.register().is_ok());
    assert!(ime.register().is_ok());
    assert!(ime.unregister().is_ok());
    assert!(ime.unregister().is_ok());
}

#[test]
fn settings_and_engine_can_be_changed() {
    let mut ime = NukoIME::new(Config::default_in("")).unwrap();
    let mut other = Config::default_in("/data");
    other.privacy.send_statistics = true;
    ime.set_config(other);
    assert!(ime.config().privacy.send_statistics);
    assert_eq!(ime.config().dictionary.user_dict_path, "/data/user.dict");
    let list = ime.engine().convert("にほん", &ConversionContext::new()).unwrap();
    assert!(!list.is_empty());
    ime.engine_mut().commit(&Candidate::new("日本", "にほん"), &ConversionContext::new()).unwrap();
    assert_eq!(ime.engine().learning().entry_count(), 1);
    assert!(ime.engine_mut().clear_learning_data().is_ok());
    assert_eq!(ime.engine().learning().entry_count(), 0);
}
