use nockpool_miner::config::Config;
use nockpool_miner::entropy::NoEntropy;
use nockpool_miner::key_manager::{
    ask_for_token, device_nickname, generate_device_nickname, nickname_if_filled,
    resolve_mining_key, HostNames, KeyAction, KeyError,
    KeyManager, KeyReply, KeyStage, ResolveAction, ResolveReply, ResolveStage,
};
use nockpool_miner::tracer::init;

fn hosts(a: Option<&str>, b: Option<&str>, c: Option<&str>) -> HostNames {
    HostNames {
        hostname: a.map(String::from),
        computername: b.map(String::from),
        hostname_file: c.map(String::from),
    }
}

fn config(key: Option<&str>, token: Option<&str>) -> Config {
    let mut c = init();
    c.key = key.map(String::from);
    c.account_token = token.map(String::from);
    c
}

fn manager() -> KeyManager {
    KeyManager::new(Ok("/keys/k".to_string())).unwrap()
}

#[test]
fn nickname_prefers_hostname() {
    let uuid = "0123abcd-0000-4000-8000-000000000000";
    let h = hosts(Some("alpha"), Some("beta"), Some("gamma\n"));
    assert_eq!(device_nickname(&h, uuid), "miner-alpha-0123abcd");
    let h = hosts(None, Some("beta"), Some("gamma\n"));
    assert_eq!(device_nickname(&h, uuid), "miner-beta-0123abcd");
    let h = hosts(None, None, Some("  gamma\n"));
    assert_eq!(device_nickname(&h, uuid), "miner-gamma-0123abcd");
}

#[test]
fn nickname_without_a_name_is_generic() {
    let uuid = "0123abcd-0000-4000-8000-000000000000";
    assert_eq!(device_nickname(&hosts(None, None, None), uuid), "miner-0123abcd");
    let h = hosts(Some(""), Some("beta"), None);
    assert_eq!(device_nickname(&h, uuid), "miner-0123abcd");
    let h = hosts(None, None, Some(" \n"));
    assert_eq!(device_nickname(&h, uuid), "miner-0123abcd");
}

#[test]
fn generated_nicknames_end_in_random_digits() {
    let h = hosts(Some("box"), None, None);
    let a = generate_device_nickname(&h).unwrap().unwrap();
    let b = generate_device_nickname(&h).unwrap().unwrap();
    for name in [&a, &b] {
        assert!(name.starts_with("miner-box-"));
        let digits = &name["miner-box-".len()..];
        assert_eq!(digits.len(), 8);
        assert!(digits.chars().all(|c| c.is_ascii_hexdigit() && !c.is_ascii_uppercase()));
    }
    assert_ne!(a, b);
}

#[test]
fn configured_key_is_used_at_once() {
    let c = config(Some("cli"), Some("token"));
    match manager().get_mining_key(&c, KeyStage::Start, KeyReply::Begin) {
        (KeyStage::Start, KeyAction::Finish(Ok(key))) => assert_eq!(key, "cli"),
        other => panic!("{:?}", other),
    }
}

#[test]
fn stored_key_is_used_next() {
    let c = config(None, Some("token"));
    let m = manager();
    let (stage, action) = m.get_mining_key(&c, KeyStage::Start, KeyReply::Begin);
    assert!(matches!(action, KeyAction::LoadKey));
    match m.get_mining_key(&c, stage, KeyReply::Loaded(Ok(Some("disk".to_string())))) {
        (_, KeyAction::Finish(Ok(key))) => assert_eq!(key, "disk"),
        other => panic!("{:?}", other),
    }
}

#[test]
fn new_key_needs_an_account_token() {
    let c = config(None, None);
    match manager().get_mining_key(&c, KeyStage::Loading, KeyReply::Loaded(Ok(None))) {
        (_, KeyAction::Finish(Err(e))) => {
            assert!(matches!(e, KeyError::AccountTokenMissing));
            assert_eq!(e.message(), "Account token is required for authentication");
        }
        other => panic!("{:?}", other),
    }
}

#[test]
fn new_key_is_made_stored_and_used() {
    let c = config(None, Some("token"));
    let m = manager();
    let (stage, action) = m.get_mining_key(&c, KeyStage::Loading, KeyReply::Loaded(Ok(None)));
    assert!(matches!(action, KeyAction::ReadHostNames));
    let named = KeyReply::Named(hosts(Some("rig"), None, None));
    let (stage, action) = m.get_mining_key(&c, stage, named);
    match action {
        KeyAction::CreateToken { account_token, device_nickname, api_url } => {
            assert_eq!(account_token, "token");
            assert!(device_nickname.unwrap().starts_with("miner-rig-"));
            assert_eq!(api_url, "https://nockpool.com");
        }
        other => panic!("{:?}", other),
    }
    let (stage, action) = m.get_mining_key(&c, stage, KeyReply::Created(Ok("new".to_string())));
    match action {
        KeyAction::SaveKey { key } => assert_eq!(key, "new"),
        other => panic!("{:?}", other),
    }
    match m.get_mining_key(&c, stage, KeyReply::Saved(Ok(()))) {
        (_, KeyAction::Finish(Ok(key))) => assert_eq!(key, "new"),
        other => panic!("{:?}", other),
    }
}

#[test]
fn failures_on_the_way_end_the_resolution() {
    let c = config(None, Some("token"));
    let m = manager();
    let broken = || "broken".to_string();
    for (stage, reply) in [
        (KeyStage::Loading, KeyReply::Loaded(Err(broken()))),
        (KeyStage::Creating, KeyReply::Created(Err(broken()))),
        (KeyStage::Saving { key: "new".to_string() }, KeyReply::Saved(Err(broken()))),
    ] {
        match m.get_mining_key(&c, stage, reply) {
            (_, KeyAction::Finish(Err(e))) => assert_eq!(e.message(), "broken"),
            other => panic!("{:?}", other),
        }
    }
}

#[test]
fn failed_token_is_a_token_error() {
    let c = config(None, Some("token"));
    let reply = KeyReply::Created(Err("no".to_string()));
    let (_, action) = manager().get_mining_key(&c, KeyStage::Creating, reply);
    assert!(matches!(action, KeyAction::Finish(Err(KeyError::Token(_)))));
}

#[test]
fn unexpected_replies_are_ignored() {
    let c = config(None, None);
    let (stage, action) = manager().get_mining_key(&c, KeyStage::Loading, KeyReply::Begin);
    assert!(matches!(stage, KeyStage::Loading));
    assert!(matches!(action, KeyAction::Ignore));
}

#[test]
fn storage_path_is_kept() {
    let m = manager();
    assert_eq!(m.get_key_storage_path(), "/keys/k");
    match m.clear_stored_key() {
        KeyAction::DeleteKey { path } => assert_eq!(path, "/keys/k"),
        other => panic!("{:?}", other),
    }
}

#[test]
fn invalid_configuration_opens_no_storage() {
    let c = config(None, None);
    let (stage, action) = resolve_mining_key(&c, ResolveStage::Start, ResolveReply::Begin);
    assert!(matches!(action, ResolveAction::ValidateAuth));
    let invalid = ResolveReply::Validated(Err("no key".to_string()));
    match resolve_mining_key(&c, stage, invalid) {
        (ResolveStage::Start, ResolveAction::Key(KeyAction::Finish(Err(e)))) => {
            assert!(matches!(e, KeyError::AuthConfig(_)));
            assert_eq!(e.message(), "Authentication configuration error: no key");
        }
        other => panic!("{:?}", other),
    }
}

#[test]
fn storage_that_cannot_be_opened_ends_the_resolution() {
    let c = config(Some("cli"), None);
    let valid = ResolveReply::Validated(Ok(()));
    let (stage, action) = resolve_mining_key(&c, ResolveStage::Validating, valid);
    assert!(matches!(action, ResolveAction::OpenStorage));
    let closed = ResolveReply::Opened(Err("disk".to_string()));
    match resolve_mining_key(&c, stage, closed) {
        (ResolveStage::Start, ResolveAction::Key(KeyAction::Finish(Err(e)))) => {
            assert!(matches!(e, KeyError::Storage(_)));
            assert_eq!(e.message(), "disk");
        }
        other => panic!("{:?}", other),
    }
}

#[test]
fn opened_storage_is_asked_for_the_key() {
    let c = config(None, None);
    let opened = ResolveReply::Opened(Ok("p".to_string()));
    let (stage, action) = resolve_mining_key(&c, ResolveStage::Opening, opened);
    assert!(matches!(action, ResolveAction::Key(KeyAction::LoadKey)));
    match &stage {
        ResolveStage::Managing { manager, .. } => assert_eq!(manager.get_key_storage_path(), "p"),
        other => panic!("{:?}", other),
    }
    let loaded = ResolveReply::Key(KeyReply::Loaded(Ok(Some("disk".to_string()))));
    match resolve_mining_key(&c, stage, loaded) {
        (_, ResolveAction::Key(KeyAction::Finish(Ok(key)))) => assert_eq!(key, "disk"),
        other => panic!("{:?}", other),
    }
}

#[test]
fn configured_key_ends_the_resolution_once_the_storage_is_open() {
    let c = config(Some("cli"), None);
    let opened = ResolveReply::Opened(Ok("p".to_string()));
    match resolve_mining_key(&c, ResolveStage::Opening, opened) {
        (_, ResolveAction::Key(KeyAction::Finish(Ok(key)))) => assert_eq!(key, "cli"),
        other => panic!("{:?}", other),
    }
}

#[test]
fn unexpected_replies_do_not_open_the_storage() {
    let c = config(None, None);
    let opened = ResolveReply::Opened(Ok("p".to_string()));
    let (stage, action) = resolve_mining_key(&c, ResolveStage::Validating, opened);
    assert!(matches!(stage, ResolveStage::Validating));
    assert!(matches!(action, ResolveAction::Key(KeyAction::Ignore)));
}

#[test]
fn basic_configuration_has_its_defaults() {
    let c = init();
    assert!(c.key.is_none() && c.account_token.is_none() && c.max_threads.is_none());
    assert_eq!(c.server_address, "quiver.nockpool.com:27016");
    assert_eq!(c.client_address, "0.0.0.0:27017");
    assert_eq!(c.api_url, "https://nockpool.com");
    assert!(!c.network_only && !c.insecure && !c.benchmark && !c.clear_key);
}

#[test]
fn nickname_takes_the_first_bytes() {
    let h = hosts(Some("rig"), None, None);
    let random: Vec<u8> = (0..16).map(|i| 0xf0 - 17 * i).collect();
    let name = nickname_if_filled(true, &random, &h).unwrap().unwrap();
    assert_eq!(name, "miner-rig-f0dfcebd");
    assert!(nickname_if_filled(false, &random, &h).is_err());
}

#[test]
fn no_entropy_no_new_key() {
    let c = config(None, Some("token"));
    match ask_for_token(&c, "token".to_string(), Err(NoEntropy)) {
        (KeyStage::Start, KeyAction::Finish(Err(e))) => {
            assert!(matches!(e, KeyError::NoEntropy));
            assert_eq!(e.message(), "the operating system has no entropy");
        }
        other => panic!("{:?}", other),
    }
    match ask_for_token(&c, "token".to_string(), Ok(Some("n".to_string()))) {
        (KeyStage::Creating, KeyAction::CreateToken { account_token, device_nickname, api_url }) => {
            assert_eq!(account_token, "token");
            assert_eq!(device_nickname.unwrap(), "n");
            assert_eq!(api_url, c.api_url);
        }
        other => panic!("{:?}", other),
    }
}

#[test]
fn second_resolution_uses_the_stored_key() {
    let c = config(None, Some("token"));
    let m = manager();
    let made = KeyReply::Created(Ok("new".to_string()));
    let (stage, action) = m.get_mining_key(&c, KeyStage::Creating, made);
    let stored = match action {
        KeyAction::SaveKey { key } => key,
        other => panic!("{:?}", other),
    };
    let first = m.get_mining_key(&c, stage, KeyReply::Saved(Ok(())));
    let (stage, action) = m.get_mining_key(&c, KeyStage::Start, KeyReply::Begin);
    assert!(matches!(action, KeyAction::LoadKey));
    let second = m.get_mining_key(&c, stage, KeyReply::Loaded(Ok(Some(stored))));
    match (first, second) {
        ((_, KeyAction::Finish(Ok(a))), (_, KeyAction::Finish(Ok(b)))) => assert_eq!(a, b),
        other => panic!("{:?}", other),
    }
}
