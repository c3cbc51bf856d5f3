use data_pipeline::artifact::{
    archive_next_action, choose_context, fs_config, pack_commands, restore_commands,
    ArchiveAction, CONTEXTS,
};

#[test]
fn pack_compresses_then_encrypts() {
    let cmds = pack_commands(
        "/w/.data/artifact/github/github-repos.tar.gz",
        "./.data/output/github/repos/",
        "test-passphrase",
    );
    assert_eq!(cmds.len(), 2);

    assert_eq!(cmds[0].program, "tar");
    assert_eq!(
        cmds[0].args,
        vec![
            "-czf",
            "/w/.data/artifact/github/github-repos.tar.gz",
            "./.data/output/github/repos/"
        ]
    );

    assert_eq!(cmds[1].program, "gpg");
    assert_eq!(
        cmds[1].args,
        vec![
            "--batch",
            "--yes",
            "--passphrase",
            "test-passphrase",
            "--symmetric",
            "--cipher-algo",
            "aes256",
            "--output",
            "/w/.data/artifact/github/github-repos.tar.gz.gpg",
            "/w/.data/artifact/github/github-repos.tar.gz"
        ]
    );
}

#[test]
fn restore_decrypts_then_unpacks() {
    let cmds = restore_commands(
        "/w/.data/artifact/github/",
        "github-repos.tar.gz",
        "github-repos.tar.gz.gpg",
        "test-passphrase",
    );
    assert_eq!(cmds.len(), 2);

    assert_eq!(cmds[0].program, "gpg");
    assert_eq!(
        cmds[0].args,
        vec![
            "--batch",
            "--yes",
            "--passphrase",
            "test-passphrase",
            "--decrypt",
            "--output",
            "/w/.data/artifact/github/github-repos.tar.gz",
            "/w/.data/artifact/github/github-repos.tar.gz.gpg"
        ]
    );

    assert_eq!(cmds[1].program, "tar");
    assert_eq!(
        cmds[1].args,
        vec![
            "-xzf",
            "/w/.data/artifact/github/github-repos.tar.gz",
            "--directory",
            "./"
        ]
    );
}

#[test]
fn a_failed_step_stops_the_plan() {
    // Steps run strictly in order; the first failure is fatal, so a
    // failed compression means nothing is ever encrypted.
    assert!(matches!(archive_next_action(0, 2, true), ArchiveAction::RunNext));
    assert!(matches!(archive_next_action(1, 2, true), ArchiveAction::RunNext));
    assert!(matches!(archive_next_action(2, 2, true), ArchiveAction::Finished));
    assert!(matches!(
        archive_next_action(1, 2, false),
        ArchiveAction::FatalStop
    ));
}

#[test]
fn unknown_context_selects_nothing() {
    let index = choose_context(CONTEXTS, Some(String::from("Shred artifact")));
    assert_eq!(index, usize::MAX);
    let index = choose_context(CONTEXTS, None);
    assert_eq!(index, usize::MAX);
}

#[test]
fn context_names_are_matched_after_trimming() {
    let index = choose_context(CONTEXTS, Some(String::from("  Restore artifact\n")));
    assert_eq!(index, 1);
}

#[test]
fn fs_config_builds_the_archive_layout() {
    let config = fs_config(
        CONTEXTS,
        String::from("/work"),
        String::from("workflows"),
    );
    assert_eq!(config.json_collection_path, "./.data/output/github/workflows/");
    assert_eq!(config.artifact_base_path, "/work/.data/artifact/github/");
    assert_eq!(config.artifact_file_name, "github-workflows.tar.gz");
    assert_eq!(
        config.encrypted_artifact_file_name,
        "github-workflows.tar.gz.gpg"
    );
}
