use nockpool_miner::http::HttpStatus;
use nockpool_miner::updater::{
    client_config, detect_os, restart_args, AutoUpdater, GitHubRelease, InstallerExit, OperatingSystem,
    ReleaseAsset, UpdateAction, UpdateError, UpdateReply, UpdateStage,
};

fn asset(name: &str, url: &str) -> ReleaseAsset {
    ReleaseAsset {
        name: name.to_string(),
        browser_download_url: url.to_string(),
        size: 1,
    }
}

fn release(tag: &str) -> GitHubRelease {
    GitHubRelease {
        tag_name: tag.to_string(),
        name: tag.to_string(),
        published_at: "today".to_string(),
        assets: vec![
            asset("other", "u0"),
            asset("nockpool-miner-macos-aarch64.pkg", "u1"),
            asset("nockpool-miner-linux-x86_64", "u2"),
            asset("nockpool-miner-linux-x86_64", "u3"),
        ],
    }
}

fn updater(os: &str) -> AutoUpdater {
    AutoUpdater::new(Ok(()), Ok(()), os).unwrap()
}

fn status(code: u16, text: &str) -> UpdateReply {
    UpdateReply::Responded(Ok(HttpStatus { code, text: text.to_string() }))
}

fn done() -> UpdateReply {
    UpdateReply::Done(Ok(()))
}

#[test]
fn test_detect_os() {
    // These are the names of the systems we support.
    for name in ["linux", "macos"] {
        let os = detect_os(name).unwrap();
        assert!(matches!(os, OperatingSystem::Linux | OperatingSystem::MacOS));
    }
}

#[test]
fn systems_are_told_by_name() {
    assert_eq!(detect_os("linux").unwrap(), OperatingSystem::Linux);
    assert_eq!(detect_os("macos").unwrap(), OperatingSystem::MacOS);
    let e = detect_os("windows").unwrap_err();
    assert!(matches!(e, UpdateError::UnsupportedOs(_)));
    assert_eq!(e.message(), "Unsupported operating system: windows");
}

#[test]
fn updater_reports_what_is_in_its_way() {
    let e = AutoUpdater::new(Err("tls".to_string()), Err("exe".to_string()), "dos").unwrap_err();
    assert_eq!(e.message(), "tls");
    let e = AutoUpdater::new(Ok(()), Err("exe".to_string()), "dos").unwrap_err();
    assert_eq!(e.message(), "exe");
    let e = AutoUpdater::new(Ok(()), Ok(()), "dos").unwrap_err();
    assert_eq!(e.message(), "Unsupported operating system: dos");
}

#[test]
fn first_compatible_asset_is_found() {
    let r = release("v2");
    assert_eq!(
        updater("linux").find_compatible_asset(&r.assets).unwrap().browser_download_url,
        "u2"
    );
    assert_eq!(
        updater("macos").find_compatible_asset(&r.assets).unwrap().browser_download_url,
        "u1"
    );
    let e = updater("linux").find_compatible_asset(&vec![asset("other", "u")]).unwrap_err();
    assert_eq!(e.message(), "No compatible asset found for nockpool-miner-linux-x86_64");
}

#[test]
fn another_version_is_an_update() {
    let r = release("v2");
    let info = updater("linux").check_for_updates("v1", &r).unwrap();
    assert!(info.needs_update);
    assert_eq!(info.current_version, "v1");
    assert_eq!(info.latest_version, "v2");
    assert_eq!(info.download_url, "u2");
    assert_eq!(info.asset_name, "nockpool-miner-linux-x86_64");
    assert!(!updater("linux").check_for_updates("v2", &r).unwrap().needs_update);
    let mut empty = release("v2");
    empty.assets = vec![];
    assert!(matches!(
        updater("linux").check_for_updates("v2", &empty),
        Err(UpdateError::NoAsset(_))
    ));
}

#[test]
fn copies_of_a_release_are_equal() {
    let r = release("v2");
    let c = r.clone();
    assert_eq!(c.tag_name, "v2");
    assert_eq!(c.published_at, "today");
    assert_eq!(c.assets.len(), 4);
    assert_eq!(c.assets[2].browser_download_url, "u2");
    let info = updater("linux").check_for_updates("v1", &r).unwrap().clone();
    assert_eq!(info.latest_version, "v2");
}

#[test]
fn linux_update_runs_to_its_end() {
    let u = updater("linux");
    let (stage, action) = u.update("v1", UpdateStage::Start, UpdateReply::Begin);
    match action {
        UpdateAction::GetRelease { url, accept } => {
            assert_eq!(
                url,
                "https://api.github.com/repos/swpsco/nockpool-miner/releases/latest"
            );
            assert_eq!(accept, "application/vnd.github.v3+json");
        }
        other => panic!("{:?}", other),
    }
    let (stage, action) = u.update("v1", stage, status(200, "200 OK"));
    assert!(matches!(action, UpdateAction::ReadRelease));
    let (stage, action) = u.update("v1", stage, UpdateReply::ReleaseRead(Ok(release("v2"))));
    assert!(matches!(action, UpdateAction::Download { url } if url == "u2"));
    let (stage, action) = u.update("v1", stage, status(200, "200 OK"));
    assert!(matches!(action, UpdateAction::ReadBody));
    let (stage, action) = u.update("v1", stage, UpdateReply::BodyRead(Ok(vec![7, 8])));
    assert!(matches!(action, UpdateAction::CheckBackup { extension } if extension == "backup"));
    let (stage, action) = u.update("v1", stage, UpdateReply::BackupExists(true));
    assert!(matches!(action, UpdateAction::RemoveBackup { extension } if extension == "backup"));
    let (stage, action) = u.update("v1", stage, done());
    assert!(matches!(action, UpdateAction::CopyToBackup { extension } if extension == "backup"));
    let (stage, action) = u.update("v1", stage, done());
    assert!(matches!(action, UpdateAction::WriteBinary { data } if data == vec![7, 8]));
    let (stage, action) = u.update("v1", stage, done());
    assert!(matches!(action, UpdateAction::SetMode { mode: 0o755 }));
    let (_, action) = u.update("v1", stage, done());
    assert!(matches!(action, UpdateAction::Finish(Ok(true))));
}

#[test]
fn without_a_backup_none_is_removed() {
    let u = updater("linux");
    let stage = UpdateStage::CheckingBackup { data: vec![1] };
    let (_, action) = u.update("v1", stage, UpdateReply::BackupExists(false));
    assert!(matches!(action, UpdateAction::CopyToBackup { extension } if extension == "backup"));
}

#[test]
fn up_to_date_changes_nothing() {
    let u = updater("linux");
    let reply = UpdateReply::ReleaseRead(Ok(release("v1")));
    let (_, action) = u.update_and_restart("v1", UpdateStage::ReadingRelease, reply);
    assert!(matches!(action, UpdateAction::Finish(Ok(false))));
}

#[test]
fn macos_update_runs_the_installer() {
    let u = updater("macos");
    let reply = UpdateReply::BodyRead(Ok(vec![5]));
    let (stage, action) = u.update("v1", UpdateStage::ReadingDownload, reply);
    match action {
        UpdateAction::SavePackage { data, suffix } => {
            assert_eq!(data, vec![5]);
            assert_eq!(suffix, ".pkg");
        }
        other => panic!("{:?}", other),
    }
    let (stage, action) = u.update("v1", stage, done());
    match action {
        UpdateAction::RunInstaller { program, before, after } => {
            assert_eq!(program, "sudo");
            assert_eq!(before, vec!["installer".to_string(), "-pkg".to_string()]);
            assert_eq!(after, vec!["-target".to_string(), "/".to_string()]);
        }
        other => panic!("{:?}", other),
    }
    let exit = InstallerExit { success: true, stderr: vec![] };
    let (_, action) = u.update("v1", stage, UpdateReply::Installed(Ok(exit)));
    assert!(matches!(action, UpdateAction::Finish(Ok(true))));
}

#[test]
fn failed_installer_is_reported_with_its_words() {
    let u = updater("macos");
    for (stderr, words) in [
        (vec![b'n', b'o'], "no"),
        (vec![b'n', 0xff, b'o'], "n\u{fffd}o"),
    ] {
        let exit = InstallerExit { success: false, stderr };
        let reply = UpdateReply::Installed(Ok(exit));
        match u.update("v1", UpdateStage::Installing, reply) {
            (_, UpdateAction::Finish(Err(e))) => {
                assert_eq!(e.message(), format!("Package installation failed: {}", words));
            }
            other => panic!("{:?}", other),
        }
    }
}

#[test]
fn restart_follows_the_installation() {
    let u = updater("linux");
    let (stage, action) = u.update_and_restart("v1", UpdateStage::MakingExecutable, done());
    assert!(matches!(action, UpdateAction::Restart));
    let (_, action) = u.update_and_restart("v1", stage, done());
    assert!(matches!(action, UpdateAction::Exit));
    let reply = UpdateReply::Done(Err("gone".to_string()));
    match u.update_and_restart("v1", UpdateStage::Restarting, reply) {
        (_, UpdateAction::Finish(Err(e))) => {
            assert_eq!(e.message(), "Failed to restart process: gone");
        }
        other => panic!("{:?}", other),
    }
}

#[test]
fn bad_statuses_are_reported() {
    for (os, stage, words) in [
        ("linux", UpdateStage::AwaitingRelease, "Failed to fetch release info: HTTP 404 Not Found"),
        ("linux", UpdateStage::AwaitingDownload, "Failed to download binary: HTTP 404 Not Found"),
        ("macos", UpdateStage::AwaitingDownload, "Failed to download package: HTTP 404 Not Found"),
    ] {
        match updater(os).update("v1", stage, status(404, "404 Not Found")) {
            (_, UpdateAction::Finish(Err(e))) => assert_eq!(e.message(), words),
            other => panic!("{:?}", other),
        }
    }
}

#[test]
fn failures_outside_end_the_update() {
    let no = || "no".to_string();
    for (stage, reply) in [
        (UpdateStage::AwaitingRelease, UpdateReply::Responded(Err(no()))),
        (UpdateStage::ReadingRelease, UpdateReply::ReleaseRead(Err(no()))),
        (UpdateStage::AwaitingDownload, UpdateReply::Responded(Err(no()))),
        (UpdateStage::ReadingDownload, UpdateReply::BodyRead(Err(no()))),
        (UpdateStage::RemovingBackup { data: vec![] }, UpdateReply::Done(Err(no()))),
        (UpdateStage::CopyingBackup { data: vec![] }, UpdateReply::Done(Err(no()))),
        (UpdateStage::WritingBinary, UpdateReply::Done(Err(no()))),
        (UpdateStage::MakingExecutable, UpdateReply::Done(Err(no()))),
        (UpdateStage::SavingPackage, UpdateReply::Done(Err(no()))),
        (UpdateStage::Installing, UpdateReply::Installed(Err(no()))),
    ] {
        match updater("linux").update("v1", stage, reply) {
            (_, UpdateAction::Finish(Err(e))) => assert_eq!(e.message(), "no"),
            other => panic!("{:?}", other),
        }
    }
}

#[test]
fn restart_keeps_the_arguments() {
    let args = vec!["exe".to_string(), "--key".to_string(), "k".to_string()];
    assert_eq!(restart_args(&args), vec!["--key".to_string(), "k".to_string()]);
    assert!(restart_args(&vec!["exe".to_string()]).is_empty());
}

#[test]
fn client_has_its_set_up() {
    let c = client_config();
    assert_eq!(c.user_agent, "nockpool-miner-updater");
    assert_eq!(c.timeout_secs, 30);
}
