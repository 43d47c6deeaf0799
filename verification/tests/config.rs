use grimoire::config::{default_opener, Config, EmbeddingConfig, EmbeddingOutput, ExternalCommand};

#[test]
fn default_opener_matches_the_platform() {
    assert_eq!(default_opener(true), "open");
    assert_eq!(default_opener(false), "xdg-open");
}

#[test]
fn external_command_accepts_program_or_argument_list() {
    let (program, args) = ExternalCommand::Program("open".to_string()).build().unwrap();
    assert_eq!(program, "open");
    assert_eq!(args.len(), 0);

    let command = ExternalCommand::Args(vec!["open".to_string(), "-a".to_string(), "Preview".to_string()]);
    let (program, args) = command.build().unwrap();
    assert_eq!(program, "open");
    assert_eq!(args, ["-a", "Preview"]);
}

#[test]
fn external_command_rejects_empty_values() {
    assert!(ExternalCommand::Program(String::new()).build().is_err());
    assert!(ExternalCommand::Args(Vec::new()).build().is_err());
}

#[test]
fn semantic_result_count_defaults_and_never_reaches_zero() {
    let default = Config::empty();
    let mut configured = Config::empty();
    configured.semantic_results = Some(25);
    let mut zero = Config::empty();
    zero.semantic_results = Some(0);

    assert_eq!(default.semantic_results(), 10);
    assert_eq!(configured.semantic_results(), 25);
    assert_eq!(zero.semantic_results(), 1);
}

#[test]
fn embedding_profile_can_override_model_and_output_index() {
    let mut config = Config::empty();
    config.embedding.repo = "synthetic/model".to_string();
    config.embedding.revision = "synthetic-revision".to_string();
    config.embedding.model_file = "model.onnx".to_string();
    config.embedding.output = Some(EmbeddingOutput::Index(2));

    assert_eq!(config.embedding.repo, "synthetic/model");
    assert_eq!(config.embedding.model_file, "model.onnx");
    assert_eq!(config.embedding.output, Some(EmbeddingOutput::Index(2)));
    assert_eq!(config.embedding.pooling, "mean");
    assert_eq!(EmbeddingConfig::default().batch_size, 32);
}

#[test]
fn environment_then_configuration_then_default() {
    let configured = Some(ExternalCommand::Program("vim".to_string()));
    let env = [None, Some("nano".to_string())];
    assert_eq!(Config::resolve_command(&env, &configured, "vi").unwrap().0, "nano");
    assert_eq!(Config::resolve_command(&[None], &configured, "vi").unwrap().0, "vim");
    assert_eq!(Config::resolve_command(&[], &None, "vi").unwrap().0, "vi");
    assert!(Config::resolve_command(&[Some(String::new())], &configured, "vi").is_err());
}

#[test]
fn library_directory_follows_the_environment_then_the_configuration() {
    let home = Some("/home/ada".to_string());
    assert_eq!(Config::library_dir(Some("/env/lib".to_string()), Some("~/x".to_string()), home.clone()), "/env/lib");
    assert_eq!(Config::library_dir(None, Some("~/Refs".to_string()), home.clone()), "/home/ada/Refs");
    assert_eq!(Config::library_dir(None, Some("~".to_string()), home.clone()), "/home/ada");
    assert_eq!(Config::library_dir(None, Some("~bob/Refs".to_string()), home.clone()), "~bob/Refs");
    assert_eq!(Config::library_dir(None, Some("~/Refs".to_string()), None), "~/Refs");
    assert_eq!(Config::library_dir(None, Some("/srv/papers".to_string()), home.clone()), "/srv/papers");
    assert_eq!(Config::library_dir(None, None, home), "/home/ada/Papers");
    assert_eq!(Config::library_dir(None, None, None), "./Papers");
}

#[test]
fn tilde_expansion_agrees_with_shellexpand() {
    for input in ["~", "~/", "~/a/b", "~x", "a~", "", "/abs", "~~/x"] {
        let ours = Config::library_dir(None, Some(input.to_string()), Some("/h".to_string()));
        let theirs = shellexpand::tilde_with_context(input, || Some("/h"));
        assert_eq!(ours, theirs.as_ref(), "{input:?}");
        let ours = Config::library_dir(None, Some(input.to_string()), None);
        let theirs = shellexpand::tilde_with_context(input, || None::<&str>);
        assert_eq!(ours, theirs.as_ref(), "{input:?}");
    }
}
