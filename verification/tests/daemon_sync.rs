use git_ai::commands::daemon_sync::{
    daemon_sync_available_for_git_ai_command, resume,
    sync_daemon_family_for_current_repo_if_present, sync_daemon_family_for_current_repo_or_exit,
    sync_daemon_family_for_repo_or_exit, SyncFailure, SyncQuestion, SyncReply, SyncSettings,
    SyncStep, EXIT_STATUS,
};

const PRODUCTION: SyncSettings = SyncSettings {
    test_support: false,
    windows: false,
};

const TESTING: SyncSettings = SyncSettings {
    test_support: true,
    windows: false,
};

/// What is outside.
struct Outside {
    repository: Result<(), String>,
    variable: Option<String>,
    exists: bool,
    worktree: Result<String, String>,
    paths: Result<(), String>,
    service: Result<(bool, Option<String>), String>,
    asked: usize,
}

impl Outside {
    fn new() -> Outside {
        Outside {
            repository: Ok(()),
            variable: Some("/tmp/socket".to_string()),
            exists: true,
            worktree: Ok("/work".to_string()),
            paths: Ok(()),
            service: Ok((true, None)),
            asked: 0,
        }
    }

    fn reply(&mut self, question: SyncQuestion) -> SyncReply {
        self.asked += 1;
        match question {
            SyncQuestion::FindRepository => match &self.repository {
                Ok(()) => SyncReply::Done,
                Err(words) => SyncReply::Failed(words.clone()),
            },
            SyncQuestion::ReadSocketVariable => SyncReply::Text(self.variable.clone()),
            SyncQuestion::ProbePath { path } => {
                assert_eq!(path, "/tmp/socket");
                SyncReply::Truth(self.exists)
            }
            SyncQuestion::ReadWorktree => match &self.worktree {
                Ok(worktree) => SyncReply::Text(Some(worktree.clone())),
                Err(words) => SyncReply::Failed(words.clone()),
            },
            SyncQuestion::ResolvePaths => match &self.paths {
                Ok(()) => SyncReply::Done,
                Err(words) => SyncReply::Failed(words.clone()),
            },
            SyncQuestion::SyncFamily { repo_working_dir } => {
                assert_eq!(repo_working_dir, "/work");
                match &self.service {
                    Ok((ok, error)) => SyncReply::Response {
                        ok: *ok,
                        error: error.clone(),
                    },
                    Err(words) => SyncReply::Failed(words.clone()),
                }
            }
        }
    }

    fn run(&mut self, first: SyncStep) -> Option<SyncFailure> {
        let mut step = first;
        loop {
            match step {
                SyncStep::Ask { question, stage } => {
                    let reply = self.reply(question);
                    step = resume(stage, reply);
                }
                SyncStep::Finished => return None,
                SyncStep::Exit(failure) => return Some(failure),
                SyncStep::Unexpected => panic!("unexpected"),
            }
        }
    }

    fn in_repository(&mut self, settings: SyncSettings) -> Option<String> {
        let first = sync_daemon_family_for_repo_or_exit("blame".to_string(), settings);
        self.run(first).map(|failure| failure.message())
    }
}

#[test]
fn sync_reaches_the_service() {
    let mut outside = Outside::new();
    assert_eq!(outside.in_repository(PRODUCTION), None);
    assert_eq!(outside.asked, 3);
    let mut outside = Outside::new();
    assert_eq!(outside.in_repository(TESTING), None);
    assert_eq!(outside.asked, 5);
    assert_eq!(EXIT_STATUS, 1);
}

#[test]
fn missing_socket_skips_the_sync() {
    for (variable, exists, asked) in [
        (None, true, 1),
        (Some(""), true, 1),
        (Some(" \t\u{a0}\n"), true, 1),
        (Some("/tmp/socket"), false, 2),
    ] {
        let mut outside = Outside::new();
        outside.variable = variable.map(str::to_string);
        outside.exists = exists;
        assert_eq!(outside.in_repository(TESTING), None);
        assert_eq!(outside.asked, asked);
    }
}

#[test]
fn sockets_are_not_probed_on_windows() {
    let mut outside = Outside::new();
    outside.exists = false;
    let windows = SyncSettings {
        test_support: true,
        windows: true,
    };
    assert_eq!(outside.in_repository(windows), None);
    assert_eq!(outside.asked, 4);
}

#[test]
fn availability_depends_on_the_name_of_the_socket() {
    let decide = |settings, path: Option<&str>| {
        daemon_sync_available_for_git_ai_command(
            "blame".to_string(),
            settings,
            path.map(str::to_string),
        )
    };
    assert!(matches!(decide(TESTING, None), SyncStep::Finished));
    assert!(matches!(decide(TESTING, Some(" ")), SyncStep::Finished));
    assert!(matches!(
        decide(TESTING, Some("/s")),
        SyncStep::Ask { question: SyncQuestion::ProbePath { path }, .. } if path == "/s"
    ));
}

#[test]
fn failures_say_what_failed() {
    let mut outside = Outside::new();
    outside.worktree = Err("bare".to_string());
    assert_eq!(
        outside.in_repository(PRODUCTION).as_deref(),
        Some("Failed to resolve repository worktree for blame: bare")
    );

    let mut outside = Outside::new();
    outside.paths = Err("no home".to_string());
    assert_eq!(
        outside.in_repository(PRODUCTION).as_deref(),
        Some("Failed to resolve daemon paths for blame: no home")
    );

    let mut outside = Outside::new();
    outside.service = Err("refused".to_string());
    assert_eq!(
        outside.in_repository(PRODUCTION).as_deref(),
        Some("Failed to sync git-ai background service before blame: refused")
    );

    let mut outside = Outside::new();
    outside.service = Ok((false, Some("busy".to_string())));
    assert_eq!(
        outside.in_repository(PRODUCTION).as_deref(),
        Some("Failed to sync git-ai background service before blame: busy")
    );

    let mut outside = Outside::new();
    outside.service = Ok((false, None));
    assert_eq!(
        outside.in_repository(PRODUCTION).as_deref(),
        Some("Failed to sync git-ai background service before blame: unknown daemon error")
    );
}

#[test]
fn repository_is_needed_or_not() {
    let mut outside = Outside::new();
    outside.repository = Err("not a repository".to_string());
    let first = sync_daemon_family_for_current_repo_or_exit("blame".to_string(), PRODUCTION);
    assert_eq!(
        outside.run(first).map(|failure| failure.message()).as_deref(),
        Some("Failed to find repository for blame: not a repository")
    );
    let first = sync_daemon_family_for_current_repo_if_present("blame".to_string(), PRODUCTION);
    assert!(outside.run(first).is_none());
    assert_eq!(outside.asked, 2);

    let mut outside = Outside::new();
    outside.paths = Err("no home".to_string());
    let first = sync_daemon_family_for_current_repo_if_present("blame".to_string(), PRODUCTION);
    assert!(matches!(
        outside.run(first),
        Some(SyncFailure::Paths { .. })
    ));
}

#[test]
fn misplaced_sync_reply_is_unexpected() {
    match sync_daemon_family_for_repo_or_exit("blame".to_string(), PRODUCTION) {
        SyncStep::Ask { stage, .. } => {
            assert!(matches!(
                resume(stage, SyncReply::Truth(true)),
                SyncStep::Unexpected
            ));
        }
        other => panic!("{other:?}"),
    }
}
