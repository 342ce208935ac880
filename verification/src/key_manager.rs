//! How the client comes by its mining key: from the configuration, from
//! storage, or newly made with an account token.

use vstd::prelude::*;

use crate::config::Config;
use crate::entropy::{draw_outcome, lemma_draw_outcome_len, os_random, NoEntropy};
use crate::hexadecimal::{hex_char, hex_encoded, is_lower_hex, lemma_hex_encoded_is_lower_hex};
use crate::text::{trim, trimmed};

verus! {

/// Why there is no mining key.
#[derive(Debug)]
pub enum KeyError {
    /// The configuration does not say how to authenticate.
    AuthConfig(String),
    /// The key storage failed.
    Storage(String),
    /// A key is to be made, and there is no account token to make it with.
    AccountTokenMissing,
    /// A key is to be made, and there is no entropy for the machine's nickname.
    NoEntropy,
    /// Making a key failed.
    Token(String),
}

impl KeyError {
    /// The message that is shown.
    pub open spec fn message_text(self) -> Seq<char> {
        match self {
            KeyError::AuthConfig(cause) => "Authentication configuration error: "@ + cause@,
            KeyError::Storage(cause) => cause@,
            KeyError::AccountTokenMissing => "Account token is required for authentication"@,
            KeyError::NoEntropy => "the operating system has no entropy"@,
            KeyError::Token(cause) => cause@,
        }
    }

    /// The message that is shown.
    pub fn message(&self) -> (r: String)
        ensures
            r@ == self.message_text(),
    {
        match self {
            KeyError::AuthConfig(cause) => "Authentication configuration error: ".to_owned().concat(
                cause.as_str(),
            ),
            KeyError::Storage(cause) => cause.clone(),
            KeyError::AccountTokenMissing => {
                "Account token is required for authentication".to_owned()
            },
            KeyError::NoEntropy => NoEntropy.message(),
            KeyError::Token(cause) => cause.clone(),
        }
    }
}

// ------------------------------------------------------------ nicknames

/// What is known of the machine's name: the variables `HOSTNAME` and
/// `COMPUTERNAME`, and the content of the host name file.
#[derive(Debug)]
pub struct HostNames {
    pub hostname: Option<String>,
    pub computername: Option<String>,
    pub hostname_file: Option<String>,
}

impl HostNames {
    /// The machine's name: the first that is known. White space around the
    /// content of the file does not count.
    pub open spec fn chosen(self) -> Option<Seq<char>> {
        match (self.hostname, self.computername, self.hostname_file) {
            (Some(name), _, _) => Some(name@),
            (None, Some(name), _) => Some(name@),
            (None, None, Some(content)) => Some(trimmed(content@)),
            (None, None, None) => None,
        }
    }

    /// The machine's name.
    fn choose_name(&self) -> (r: Option<String>)
        ensures
            match r {
                Some(name) => self.chosen() == Some(name@),
                None => self.chosen() is None,
            },
    {
        if let Some(name) = &self.hostname {
            return Some(name.clone());
        }
        if let Some(name) = &self.computername {
            return Some(name.clone());
        }
        match &self.hostname_file {
            Some(content) => Some(trim(content.as_str())),
            None => None,
        }
    }
}

/// The name that a nickname starts with.
pub open spec fn base_name(host: Option<Seq<char>>) -> Seq<char> {
    match host {
        Some(name) if name.len() > 0 => "miner-"@ + name,
        _ => "miner"@,
    }
}

/// The nickname of a machine: its name, and the first eight characters of a
/// UUID.
pub open spec fn nickname(host: Option<Seq<char>>, uuid: Seq<char>) -> Seq<char> {
    base_name(host) + "-"@ + uuid.subrange(0, 8)
}

/// The bytes of the random UUID, of version 4 and the standard variant, that is
/// made of sixteen random bytes.
pub open spec fn uuid_bytes(random: Seq<u8>) -> Seq<u8> {
    random.update(6, (random[6] & 0x0f) | 0x40).update(8, (random[8] & 0x3f) | 0x80)
}

/// That UUID in lower-case notation, with hyphens between groups of 8, 4, 4, 4
/// and 12 digits.
pub open spec fn uuid_text(random: Seq<u8>) -> Seq<char> {
    let digits = hex_encoded(uuid_bytes(random));
    digits.subrange(0, 8) + seq!['-'] + digits.subrange(8, 12) + seq!['-'] + digits.subrange(12, 16)
        + seq!['-'] + digits.subrange(16, 20) + seq!['-'] + digits.subrange(20, 32)
}

/// Trusted: `uuid::Builder::from_random_bytes`, and how the UUID is displayed.
/// The bytes are kept but for the four bits of the version, which become 4, and
/// the two bits of the variant; they are written in lower-case hexadecimal
/// digits, in hyphenated groups.
#[verifier::external_body]
fn random_uuid(random: [u8; 16]) -> (r: String)
    ensures
        r@ == uuid_text(random@),
{
    uuid::Builder::from_random_bytes(random).into_uuid().to_string()
}

/// The nickname of a machine, given a UUID.
pub fn device_nickname(host: &HostNames, uuid: &str) -> (r: String)
    requires
        uuid@.len() >= 8,
    ensures
        r@ == nickname(host.chosen(), uuid@),
{
    let mut r = match host.choose_name() {
        Some(name) => if name.as_str().is_empty() {
            "miner".to_owned()
        } else {
            "miner-".to_owned().concat(name.as_str())
        },
        None => "miner".to_owned(),
    };
    r.append("-");
    r.append(uuid.substring_char(0, 8));
    r
}

/// Whether `s` is a nickname of the machine.
pub open spec fn is_nickname(s: Seq<char>, host: HostNames) -> bool {
    exists|random: Seq<u8>|
        random.len() == 16 && s == nickname(host.chosen(), #[trigger] uuid_text(random))
}

/// Whether asking the operating system for a UUID's bytes can give this
/// nickname, or none.
pub open spec fn drawn_nickname(name: Option<Seq<char>>, host: HostNames) -> bool {
    exists|filled: bool, random: Seq<u8>| #[trigger]
        draw_outcome(16, filled, random) && match name {
            Some(s) => filled && s == nickname(host.chosen(), uuid_text(random)),
            None => !filled,
        }
}

/// The nickname of the machine that random bytes stand for, if they were filled
/// with entropy.
pub fn nickname_if_filled(filled: bool, random: &Vec<u8>, host: &HostNames) -> (r: Result<
    Option<String>,
    NoEntropy,
>)
    requires
        random@.len() == 16,
    ensures
        r is Ok <==> filled,
        r matches Ok(name) ==> {
            &&& name is Some
            &&& name->0@ == nickname(host.chosen(), uuid_text(random@))
            &&& is_nickname(name->0@, *host)
        },
{
    if !filled {
        return Err(NoEntropy);
    }
    let bytes: [u8; 16] = [
        random[0],
        random[1],
        random[2],
        random[3],
        random[4],
        random[5],
        random[6],
        random[7],
        random[8],
        random[9],
        random[10],
        random[11],
        random[12],
        random[13],
        random[14],
        random[15],
    ];
    assert(bytes@ =~= random@);
    let uuid = random_uuid(bytes);
    Ok(Some(device_nickname(host, uuid.as_str())))
}

/// A nickname of the machine.
pub fn generate_device_nickname(host: &HostNames) -> (r: Result<Option<String>, NoEntropy>)
    ensures
        match r {
            Ok(name) => {
                &&& name is Some
                &&& is_nickname(name->0@, *host)
                &&& drawn_nickname(Some(name->0@), *host)
            },
            Err(_) => drawn_nickname(None, *host),
        },
{
    let mut random: Vec<u8> = vec![0u8; 16];
    let filled = os_random(&mut random);
    assert(draw_outcome(16, filled, random@));
    nickname_if_filled(filled, &random, host)
}

/// A nickname is the machine's base name, a hyphen and eight hexadecimal
/// digits.
pub proof fn lemma_nickname_form(s: Seq<char>, host: HostNames)
    requires
        is_nickname(s, host),
    ensures
        s.len() == base_name(host.chosen()).len() + 9,
        s.subrange(0, base_name(host.chosen()).len() as int) == base_name(host.chosen()),
        s[base_name(host.chosen()).len() as int] == '-',
        forall|i: int|
            base_name(host.chosen()).len() < i < s.len() ==> is_lower_hex(#[trigger] s[i]),
{
    reveal_strlit("-");
    let random = choose|random: Seq<u8>|
        random.len() == 16 && s == nickname(host.chosen(), #[trigger] uuid_text(random));
    let base = base_name(host.chosen());
    let digits = hex_encoded(uuid_bytes(random));
    lemma_hex_encoded_is_lower_hex(uuid_bytes(random));
    assert(uuid_text(random).subrange(0, 8) =~= digits.subrange(0, 8));
    assert(s.subrange(0, base.len() as int) =~= base);
    assert forall|i: int| base.len() < i < s.len() implies is_lower_hex(#[trigger] s[i]) by {
        assert(s[i] == digits[i - base.len() - 1]);
    }
}

/// Whether `s` is a UUID of version 4 and the standard variant, in hyphenated
/// lower-case notation.
pub open spec fn is_uuid(s: Seq<char>) -> bool {
    &&& s.len() == 36
    &&& forall|i: int|
        0 <= i < 36 ==> if i == 8 || i == 13 || i == 18 || i == 23 {
            #[trigger] s[i] == '-'
        } else {
            is_lower_hex(s[i])
        }
    &&& s[14] == '4'
    &&& s[19] == '8' || s[19] == '9' || s[19] == 'a' || s[19] == 'b'
}

/// Whatever the random bytes, they make a UUID of version 4.
pub proof fn lemma_uuid_form(random: Seq<u8>)
    requires
        random.len() == 16,
    ensures
        is_uuid(uuid_text(random)),
{
    let bytes = uuid_bytes(random);
    let digits = hex_encoded(bytes);
    let s = uuid_text(random);
    lemma_hex_encoded_is_lower_hex(bytes);
    let version = random[6];
    let variant = random[8];
    assert(((version & 0x0f) | 0x40) / 16 == 4u8) by (bit_vector);
    assert(8u8 <= ((variant & 0x3f) | 0x80) / 16 <= 11u8) by (bit_vector);
    assert(s[14] == digits[12] && s[19] == digits[16]);
    assert(digits[12] == hex_char(bytes[6] as int / 16));
    assert(digits[16] == hex_char(bytes[8] as int / 16));
    assert forall|i: int| 0 <= i < 36 implies if i == 8 || i == 13 || i == 18 || i == 23 {
        #[trigger] s[i] == '-'
    } else {
        is_lower_hex(s[i])
    } by {
        if i < 8 {
            assert(s[i] == digits[i]);
        } else if 8 < i < 13 {
            assert(s[i] == digits[i - 1]);
        } else if 13 < i < 18 {
            assert(s[i] == digits[i - 2]);
        } else if 18 < i < 23 {
            assert(s[i] == digits[i - 3]);
        } else if 23 < i {
            assert(s[i] == digits[i - 4]);
        }
    }
}

// ------------------------------------------------------------ keys

/// What the resolution of a key waits for.
#[derive(Debug)]
pub enum KeyStage {
    /// It has not begun.
    Start,
    /// The stored key.
    Loading,
    /// The machine's name, to make a key with an account token.
    Naming { account_token: String },
    /// The newly made key.
    Creating,
    /// The end of storing a newly made key.
    Saving { key: String },
}

/// What came.
#[derive(Debug)]
pub enum KeyReply {
    Begin,
    Loaded(Result<Option<String>, String>),
    Named(HostNames),
    Created(Result<String, String>),
    Saved(Result<(), String>),
}

/// What is to be done next.
#[derive(Debug)]
pub enum KeyAction {
    /// Load the stored key, if there is one.
    LoadKey,
    /// Find out the machine's name.
    ReadHostNames,
    /// Make a key.
    CreateToken { account_token: String, device_nickname: Option<String>, api_url: String },
    /// Store the key.
    SaveKey { key: String },
    /// Delete the stored key.
    DeleteKey { path: String },
    /// End with this key, or with this error.
    Finish(Result<String, KeyError>),
    /// Nothing: what came was not waited for.
    Ignore,
}

/// Whether `action`, and then waiting in `next`, is what follows once there is
/// a nickname, or there is none to be had.
pub open spec fn asks_for_token(
    config: Config,
    account_token: String,
    nickname: Result<Option<String>, NoEntropy>,
    next: KeyStage,
    action: KeyAction,
) -> bool {
    match nickname {
        Ok(device_nickname) => {
            &&& action == KeyAction::CreateToken {
                account_token,
                device_nickname,
                api_url: config.api_url,
            }
            &&& next is Creating
        },
        Err(_) => {
            &&& action == KeyAction::Finish(Err(KeyError::NoEntropy))
            &&& next is Start
        },
    }
}

/// Asks for a key, with the nickname if there is one to be had.
pub fn ask_for_token(
    config: &Config,
    account_token: String,
    nickname: Result<Option<String>, NoEntropy>,
) -> (r: (KeyStage, KeyAction))
    ensures
        asks_for_token(*config, account_token, nickname, r.0, r.1),
{
    match nickname {
        Ok(device_nickname) => (
            KeyStage::Creating,
            KeyAction::CreateToken {
                account_token,
                device_nickname,
                api_url: config.api_url.clone(),
            },
        ),
        Err(_) => (KeyStage::Start, KeyAction::Finish(Err(KeyError::NoEntropy))),
    }
}

/// Whether `action`, and then waiting in `next`, is what follows when `reply`
/// comes at `stage`.
pub open spec fn key_step(
    config: Config,
    stage: KeyStage,
    reply: KeyReply,
    next: KeyStage,
    action: KeyAction,
) -> bool {
    match (stage, reply) {
        (KeyStage::Start, KeyReply::Begin) => match config.key {
            Some(key) => action == KeyAction::Finish(Ok(key)) && next is Start,
            None => action is LoadKey && next is Loading,
        },
        (KeyStage::Loading, KeyReply::Loaded(Err(cause))) => {
            &&& action == KeyAction::Finish(Err(KeyError::Storage(cause)))
            &&& next is Start
        },
        (KeyStage::Loading, KeyReply::Loaded(Ok(Some(key)))) => {
            &&& action == KeyAction::Finish(Ok(key))
            &&& next is Start
        },
        (KeyStage::Loading, KeyReply::Loaded(Ok(None))) => match config.account_token {
            None => {
                &&& action == KeyAction::Finish(Err(KeyError::AccountTokenMissing))
                &&& next is Start
            },
            Some(token) => {
                &&& action is ReadHostNames
                &&& next == (KeyStage::Naming { account_token: token })
            },
        },
        (KeyStage::Naming { account_token }, KeyReply::Named(host)) => {
            ||| exists|name: Option<String>| #[trigger]
                asks_for_token(config, account_token, Ok(name), next, action) && name is Some
                    && is_nickname(name->0@, host) && drawn_nickname(Some(name->0@), host)
            ||| asks_for_token(config, account_token, Err(NoEntropy), next, action)
                && drawn_nickname(None, host)
        },
        (KeyStage::Creating, KeyReply::Created(Err(cause))) => {
            &&& action == KeyAction::Finish(Err(KeyError::Token(cause)))
            &&& next is Start
        },
        (KeyStage::Creating, KeyReply::Created(Ok(key))) => {
            &&& action == KeyAction::SaveKey { key }
            &&& next == (KeyStage::Saving { key })
        },
        (KeyStage::Saving { .. }, KeyReply::Saved(Err(cause))) => {
            &&& action == KeyAction::Finish(Err(KeyError::Storage(cause)))
            &&& next is Start
        },
        (KeyStage::Saving { key }, KeyReply::Saved(Ok(_))) => {
            &&& action == KeyAction::Finish(Ok(key))
            &&& next is Start
        },
        _ => action is Ignore && next == stage,
    }
}

/// Resolves mining keys, with a key storage.
#[derive(Debug)]
pub struct KeyManager {
    storage_path: String,
}

impl KeyManager {
    /// The path of the stored key.
    pub closed spec fn path(self) -> Seq<char> {
        self.storage_path@
    }

    /// A manager for the storage that was opened, given the path of its key.
    pub fn new(storage: Result<String, String>) -> (r: Result<KeyManager, KeyError>)
        ensures
            match r {
                Ok(manager) => storage matches Ok(path) && manager.path() == path@,
                Err(e) => storage matches Err(cause) && e == KeyError::Storage(cause),
            },
    {
        match storage {
            Ok(storage_path) => Ok(KeyManager { storage_path }),
            Err(cause) => Err(KeyError::Storage(cause)),
        }
    }

    /// The next step towards the mining key. A key of the configuration comes
    /// first, then a stored key, then a newly made one, which is stored.
    pub fn get_mining_key(&self, config: &Config, stage: KeyStage, reply: KeyReply) -> (r: (
        KeyStage,
        KeyAction,
    ))
        ensures
            key_step(*config, stage, reply, r.0, r.1),
    {
        match (stage, reply) {
            (KeyStage::Start, KeyReply::Begin) => match &config.key {
                Some(key) => (KeyStage::Start, KeyAction::Finish(Ok(key.clone()))),
                None => (KeyStage::Loading, KeyAction::LoadKey),
            },
            (KeyStage::Loading, KeyReply::Loaded(Err(cause))) => {
                (KeyStage::Start, KeyAction::Finish(Err(KeyError::Storage(cause))))
            },
            (KeyStage::Loading, KeyReply::Loaded(Ok(Some(key)))) => {
                (KeyStage::Start, KeyAction::Finish(Ok(key)))
            },
            (KeyStage::Loading, KeyReply::Loaded(Ok(None))) => match &config.account_token {
                None => (KeyStage::Start, KeyAction::Finish(Err(KeyError::AccountTokenMissing))),
                Some(token) => (
                    KeyStage::Naming { account_token: token.clone() },
                    KeyAction::ReadHostNames,
                ),
            },
            (KeyStage::Naming { account_token }, KeyReply::Named(host)) => {
                ask_for_token(config, account_token, generate_device_nickname(&host))
            },
            (KeyStage::Creating, KeyReply::Created(Err(cause))) => {
                (KeyStage::Start, KeyAction::Finish(Err(KeyError::Token(cause))))
            },
            (KeyStage::Creating, KeyReply::Created(Ok(key))) => {
                let kept = key.clone();
                (KeyStage::Saving { key: kept }, KeyAction::SaveKey { key })
            },
            (KeyStage::Saving { .. }, KeyReply::Saved(Err(cause))) => {
                (KeyStage::Start, KeyAction::Finish(Err(KeyError::Storage(cause))))
            },
            (KeyStage::Saving { key }, KeyReply::Saved(Ok(_))) => {
                (KeyStage::Start, KeyAction::Finish(Ok(key)))
            },
            (stage, _) => (stage, KeyAction::Ignore),
        }
    }

    /// The deletion of the stored key.
    pub fn clear_stored_key(&self) -> (r: KeyAction)
        ensures
            r matches KeyAction::DeleteKey { path } && path@ == self.path(),
    {
        KeyAction::DeleteKey { path: self.storage_path.clone() }
    }

    /// The path of the stored key.
    pub fn get_key_storage_path(&self) -> (r: String)
        ensures
            r@ == self.path(),
    {
        self.storage_path.clone()
    }
}

// ------------------------------------------------------------ resolution

/// What the resolution of a key from the very start waits for.
#[derive(Debug)]
pub enum ResolveStage {
    /// It has not begun, or it has ended before there was a manager.
    Start,
    /// Whether the configuration says how to authenticate.
    Validating,
    /// The opened storage.
    Opening,
    /// What the manager waits for.
    Managing { manager: KeyManager, stage: KeyStage },
}

/// What came.
#[derive(Debug)]
pub enum ResolveReply {
    Begin,
    Validated(Result<(), String>),
    /// The storage, as the path of its key.
    Opened(Result<String, String>),
    /// What came for the manager.
    Key(KeyReply),
}

/// What is to be done next.
#[derive(Debug)]
pub enum ResolveAction {
    /// Find out whether the configuration says how to authenticate.
    ValidateAuth,
    /// Open the storage.
    OpenStorage,
    /// What the manager asks for.
    Key(KeyAction),
}

/// Whether the resolution ends in an error before there is a manager.
pub open spec fn refuses(next: ResolveStage, action: ResolveAction, e: KeyError) -> bool {
    next is Start && action == ResolveAction::Key(KeyAction::Finish(Err(e)))
}

/// Whether `action`, and then waiting in `next`, is what follows when `reply`
/// comes at `stage`. The storage is opened only for a valid configuration, and
/// what is done with it goes by [`key_step`].
pub open spec fn resolve_step(
    config: Config,
    stage: ResolveStage,
    reply: ResolveReply,
    next: ResolveStage,
    action: ResolveAction,
) -> bool {
    match (stage, reply) {
        (ResolveStage::Start, ResolveReply::Begin) => {
            action is ValidateAuth && next is Validating
        },
        (ResolveStage::Validating, ResolveReply::Validated(Err(cause))) => {
            refuses(next, action, KeyError::AuthConfig(cause))
        },
        (ResolveStage::Validating, ResolveReply::Validated(Ok(_))) => {
            action is OpenStorage && next is Opening
        },
        (ResolveStage::Opening, ResolveReply::Opened(Err(cause))) => {
            refuses(next, action, KeyError::Storage(cause))
        },
        (ResolveStage::Opening, ResolveReply::Opened(Ok(path))) => {
            &&& action matches ResolveAction::Key(asked)
            &&& next matches ResolveStage::Managing { manager, stage: waiting }
            &&& manager.path() == path@
            &&& key_step(config, KeyStage::Start, KeyReply::Begin, waiting, asked)
        },
        (ResolveStage::Managing { manager, stage: before }, ResolveReply::Key(came)) => {
            &&& action matches ResolveAction::Key(asked)
            &&& next matches ResolveStage::Managing { manager: kept, stage: waiting }
            &&& kept == manager
            &&& key_step(config, before, came, waiting, asked)
        },
        _ => action == ResolveAction::Key(KeyAction::Ignore) && next == stage,
    }
}

/// The next step towards the mining key, from the very start: the
/// configuration is validated, then the storage is opened, and then its
/// manager goes on.
pub fn resolve_mining_key(config: &Config, stage: ResolveStage, reply: ResolveReply) -> (r: (
    ResolveStage,
    ResolveAction,
))
    ensures
        resolve_step(*config, stage, reply, r.0, r.1),
{
    match (stage, reply) {
        (ResolveStage::Start, ResolveReply::Begin) => {
            (ResolveStage::Validating, ResolveAction::ValidateAuth)
        },
        (ResolveStage::Validating, ResolveReply::Validated(Err(cause))) => (
            ResolveStage::Start,
            ResolveAction::Key(KeyAction::Finish(Err(KeyError::AuthConfig(cause)))),
        ),
        (ResolveStage::Validating, ResolveReply::Validated(Ok(_))) => {
            (ResolveStage::Opening, ResolveAction::OpenStorage)
        },
        (ResolveStage::Opening, ResolveReply::Opened(storage)) => match KeyManager::new(storage) {
            Err(e) => (ResolveStage::Start, ResolveAction::Key(KeyAction::Finish(Err(e)))),
            Ok(manager) => {
                let (stage, asked) = manager.get_mining_key(
                    config,
                    KeyStage::Start,
                    KeyReply::Begin,
                );
                (ResolveStage::Managing { manager, stage }, ResolveAction::Key(asked))
            },
        },
        (ResolveStage::Managing { manager, stage }, ResolveReply::Key(came)) => {
            let (stage, asked) = manager.get_mining_key(config, stage, came);
            (ResolveStage::Managing { manager, stage }, ResolveAction::Key(asked))
        },
        (stage, _) => (stage, ResolveAction::Key(KeyAction::Ignore)),
    }
}

// ------------------------------------------------------------ laws

/// What the world answers to the actions of a resolution.
pub struct KeyAnswers {
    pub loaded: Result<Option<String>, String>,
    pub host: HostNames,
    pub created: Result<String, String>,
    pub saved: Result<(), String>,
}

impl KeyAnswers {
    /// The reply to an action.
    pub open spec fn reply(self, action: KeyAction) -> KeyReply {
        match action {
            KeyAction::LoadKey => KeyReply::Loaded(self.loaded),
            KeyAction::ReadHostNames => KeyReply::Named(self.host),
            KeyAction::CreateToken { .. } => KeyReply::Created(self.created),
            KeyAction::SaveKey { .. } => KeyReply::Saved(self.saved),
            _ => KeyReply::Begin,
        }
    }
}

/// Whether step `i` of a resolution is as it should be: the first step begins,
/// and each later one takes the reply to the action before it.
pub open spec fn resolution_step(
    config: Config,
    answers: KeyAnswers,
    stages: Seq<KeyStage>,
    actions: Seq<KeyAction>,
    i: int,
) -> bool {
    let reply = if i == 0 {
        KeyReply::Begin
    } else {
        answers.reply(actions[i - 1])
    };
    &&& key_step(config, stages[i], reply, stages[i + 1], actions[i])
    &&& i > 0 ==> !(actions[i - 1] is Finish)
}

/// Whether `actions`, with the `stages` between them, is a resolution, which
/// may not have come to its end.
pub open spec fn is_resolution(
    config: Config,
    answers: KeyAnswers,
    stages: Seq<KeyStage>,
    actions: Seq<KeyAction>,
) -> bool {
    &&& stages.len() == actions.len() + 1
    &&& stages[0] is Start
    &&& forall|i: int|
        0 <= i < actions.len() ==> #[trigger] resolution_step(config, answers, stages, actions, i)
}

/// The key that a resolution ends with. A key of the configuration goes before
/// a stored key, and a stored key before a new one. A new key needs an account
/// token, and it counts only once it is stored.
pub open spec fn resolved_key(config: Config, answers: KeyAnswers) -> Result<String, KeyError> {
    match config.key {
        Some(key) => Ok(key),
        None => match answers.loaded {
            Err(cause) => Err(KeyError::Storage(cause)),
            Ok(Some(key)) => Ok(key),
            Ok(None) => match config.account_token {
                None => Err(KeyError::AccountTokenMissing),
                Some(_) => match answers.created {
                    Err(cause) => Err(KeyError::Token(cause)),
                    Ok(key) => match answers.saved {
                        Err(cause) => Err(KeyError::Storage(cause)),
                        Ok(_) => Ok(key),
                    },
                },
            },
        },
    }
}

/// Whether a new key is to be made: none is configured, none is stored, and
/// there is an account token.
pub open spec fn makes_key(config: Config, answers: KeyAnswers) -> bool {
    &&& config.key is None
    &&& answers.loaded == Ok::<Option<String>, String>(None)
    &&& config.account_token is Some
}

/// Whether a resolution can end with `outcome`. The one thing that the answers
/// do not decide is whether there is entropy to make a new key with.
pub open spec fn may_resolve_to(
    config: Config,
    answers: KeyAnswers,
    outcome: Result<String, KeyError>,
) -> bool {
    ||| outcome == resolved_key(config, answers)
    ||| outcome == Err::<String, KeyError>(KeyError::NoEntropy) && makes_key(config, answers)
}

/// The first actions of a resolution, unrolled.
proof fn lemma_resolution_prefix(
    config: Config,
    answers: KeyAnswers,
    stages: Seq<KeyStage>,
    actions: Seq<KeyAction>,
)
    requires
        is_resolution(config, answers, stages, actions),
    ensures
        actions.len() > 0 ==> actions[0] is LoadKey || actions[0] is Finish,
        actions.len() > 1 ==> actions[1] is ReadHostNames || actions[1] is Finish,
        actions.len() > 2 ==> actions[2] is CreateToken || actions[2] is Finish,
        actions.len() > 3 ==> actions[3] is SaveKey || actions[3] is Finish,
        actions.len() > 4 ==> actions[4] is Finish,
        actions.len() <= 5,
        forall|i: int|
            0 <= i < actions.len() ==> (#[trigger] actions[i] matches KeyAction::Finish(outcome)
                ==> may_resolve_to(config, answers, outcome)),
{
    if actions.len() > 0 {
        assert(resolution_step(config, answers, stages, actions, 0));
    }
    if actions.len() > 1 {
        assert(resolution_step(config, answers, stages, actions, 1));
    }
    if actions.len() > 2 {
        assert(resolution_step(config, answers, stages, actions, 2));
    }
    if actions.len() > 3 {
        assert(resolution_step(config, answers, stages, actions, 3));
    }
    if actions.len() > 4 {
        assert(resolution_step(config, answers, stages, actions, 4));
    }
    if actions.len() > 5 {
        assert(resolution_step(config, answers, stages, actions, 5));
    }
}

/// A resolution that has ended gave the key that goes before the others, or
/// the first error on the way to it; only to make a new key entropy can be
/// missing.
pub proof fn lemma_resolution_outcome(
    config: Config,
    answers: KeyAnswers,
    stages: Seq<KeyStage>,
    actions: Seq<KeyAction>,
)
    requires
        is_resolution(config, answers, stages, actions),
        actions.len() > 0,
        actions.last() is Finish,
    ensures
        may_resolve_to(config, answers, actions.last()->Finish_0),
{
    lemma_resolution_prefix(config, answers, stages, actions);
}

/// A resolution ends after at most five actions.
pub proof fn lemma_resolution_ends(
    config: Config,
    answers: KeyAnswers,
    stages: Seq<KeyStage>,
    actions: Seq<KeyAction>,
)
    requires
        is_resolution(config, answers, stages, actions),
    ensures
        actions.len() <= 5,
        actions.len() == 5 ==> actions.last() is Finish,
{
    lemma_resolution_prefix(config, answers, stages, actions);
}

/// A key of the configuration is used without a look at the storage.
pub proof fn lemma_configured_key_needs_nothing(
    config: Config,
    answers: KeyAnswers,
    stages: Seq<KeyStage>,
    actions: Seq<KeyAction>,
    key: String,
)
    requires
        is_resolution(config, answers, stages, actions),
        actions.len() > 0,
        config.key == Some(key),
    ensures
        actions == seq![KeyAction::Finish(Ok(key))],
{
    assert(resolution_step(config, answers, stages, actions, 0));
    if actions.len() > 1 {
        assert(resolution_step(config, answers, stages, actions, 1));
    }
    assert(actions =~= seq![KeyAction::Finish(Ok(key))]);
}

/// A key is made and stored only where none is configured or stored; the key
/// that is stored is the one that was made, and, if storing it went well, the
/// one that the resolution gives.
pub proof fn lemma_only_new_keys_are_stored(
    config: Config,
    answers: KeyAnswers,
    stages: Seq<KeyStage>,
    actions: Seq<KeyAction>,
    i: int,
)
    requires
        is_resolution(config, answers, stages, actions),
        0 <= i < actions.len(),
        actions[i] is CreateToken || actions[i] is SaveKey,
    ensures
        config.key is None,
        answers.loaded == Ok::<Option<String>, String>(None),
        config.account_token is Some,
        actions[i] matches KeyAction::SaveKey { key } ==> answers.created == Ok::<String, String>(
            key,
        ) && (answers.saved is Ok ==> resolved_key(config, answers) == Ok::<String, KeyError>(key)),
{
    lemma_resolution_prefix(config, answers, stages, actions);
    assert(resolution_step(config, answers, stages, actions, 0));
    assert(resolution_step(config, answers, stages, actions, 1));
    assert(resolution_step(config, answers, stages, actions, 2));
    if i == 3 {
        assert(resolution_step(config, answers, stages, actions, 3));
    }
}

/// What the storage answers after a resolution that ended with `key`: the key,
/// if it was made and stored, and else what it answered before.
pub open spec fn loaded_after(config: Config, answers: KeyAnswers, key: String) -> Result<
    Option<String>,
    String,
> {
    if makes_key(config, answers) {
        Ok(Some(key))
    } else {
        answers.loaded
    }
}

/// A second resolution gives the key of the first, and makes and stores none.
pub proof fn lemma_second_resolution_gives_same_key(
    config: Config,
    first: KeyAnswers,
    first_stages: Seq<KeyStage>,
    first_actions: Seq<KeyAction>,
    key: String,
    second: KeyAnswers,
    stages: Seq<KeyStage>,
    actions: Seq<KeyAction>,
)
    requires
        is_resolution(config, first, first_stages, first_actions),
        first_actions.len() > 0,
        first_actions.last() == KeyAction::Finish(Ok(key)),
        is_resolution(config, second, stages, actions),
        second.loaded == loaded_after(config, first, key),
    ensures
        forall|i: int|
            0 <= i < actions.len() ==> !((#[trigger] actions[i]) is CreateToken)
                && !(actions[i] is SaveKey),
        actions.len() > 0 && actions.last() is Finish ==> actions.last() == KeyAction::Finish(
            Ok(key),
        ),
{
    lemma_resolution_outcome(config, first, first_stages, first_actions);
    lemma_resolution_prefix(config, second, stages, actions);
    assert forall|i: int| 0 <= i < actions.len() implies !((#[trigger] actions[i]) is CreateToken)
        && !(actions[i] is SaveKey) by {
        if actions[i] is CreateToken || actions[i] is SaveKey {
            lemma_only_new_keys_are_stored(config, second, stages, actions, i);
        }
    }
    if actions.len() > 0 && actions.last() is Finish {
        lemma_resolution_outcome(config, second, stages, actions);
    }
}

/// What the world answers to the actions of a resolution from the very start.
pub struct ResolveAnswers {
    pub validation: Result<(), String>,
    pub storage: Result<String, String>,
    pub key: KeyAnswers,
}

impl ResolveAnswers {
    /// The reply to an action.
    pub open spec fn reply(self, action: ResolveAction) -> ResolveReply {
        match action {
            ResolveAction::ValidateAuth => ResolveReply::Validated(self.validation),
            ResolveAction::OpenStorage => ResolveReply::Opened(self.storage),
            ResolveAction::Key(asked) => ResolveReply::Key(self.key.reply(asked)),
        }
    }

    /// What the resolution ends with: an invalid configuration is reported
    /// first, then a storage that cannot be opened, and else it is what the
    /// manager of the storage comes to.
    pub open spec fn outcome(self, config: Config) -> Result<String, KeyError> {
        match (self.validation, self.storage) {
            (Err(cause), _) => Err(KeyError::AuthConfig(cause)),
            (Ok(_), Err(cause)) => Err(KeyError::Storage(cause)),
            (Ok(_), Ok(_)) => resolved_key(config, self.key),
        }
    }
}

impl ResolveAnswers {
    /// Whether the resolution can end with `outcome`. Entropy can be missing
    /// only where a new key is to be made.
    pub open spec fn may_end_with(self, config: Config, outcome: Result<String, KeyError>) -> bool {
        ||| outcome == self.outcome(config)
        ||| {
            &&& outcome == Err::<String, KeyError>(KeyError::NoEntropy)
            &&& self.validation is Ok && self.storage is Ok
            &&& makes_key(config, self.key)
        }
    }
}

/// Whether an action ends the resolution.
pub open spec fn is_end(action: ResolveAction) -> bool {
    action matches ResolveAction::Key(asked) && asked is Finish
}

/// One course of a resolution from the very start: the actions, and the stages
/// before, between and after them.
pub struct Resolution {
    pub config: Config,
    pub answers: ResolveAnswers,
    pub stages: Seq<ResolveStage>,
    pub actions: Seq<ResolveAction>,
}

impl Resolution {
    /// Whether step `i` is as it should be: the first step begins, and each
    /// later one takes the reply to the action before it, which is no end.
    pub open spec fn step_holds(self, i: int) -> bool {
        let reply = if i == 0 {
            ResolveReply::Begin
        } else {
            self.answers.reply(self.actions[i - 1])
        };
        &&& resolve_step(
            self.config,
            self.stages[i],
            reply,
            self.stages[i + 1],
            self.actions[i],
        )
        &&& i > 0 ==> !is_end(self.actions[i - 1])
    }

    /// Whether this is a course of a resolution, which may not have come to
    /// its end.
    pub open spec fn valid(self) -> bool {
        &&& self.stages.len() == self.actions.len() + 1
        &&& self.stages[0] is Start
        &&& forall|i: int| 0 <= i < self.actions.len() ==> #[trigger] self.step_holds(i)
    }

    /// What is known when `i` actions have been taken.
    spec fn known(self, i: int) -> bool {
        let a = self.answers;
        let last = self.actions[i - 1];
        match self.stages[i] {
            ResolveStage::Start => i == 0 || {
                &&& last matches ResolveAction::Key(KeyAction::Finish(outcome))
                    && a.may_end_with(self.config, outcome)
                &&& i == if a.validation is Ok { 3int } else { 2int }
            },
            ResolveStage::Validating => i == 1 && last is ValidateAuth,
            ResolveStage::Opening => i == 2 && last is OpenStorage && a.validation is Ok,
            ResolveStage::Managing { manager, stage } => {
                &&& i >= 3 && a.validation is Ok
                &&& a.storage matches Ok(path) && manager.path() == path@
                &&& last matches ResolveAction::Key(asked) && match stage {
                    KeyStage::Start => i <= 7 && (asked matches KeyAction::Finish(outcome)
                        && a.may_end_with(self.config, outcome)),
                    KeyStage::Loading => asked is LoadKey && i == 3 && self.config.key is None,
                    KeyStage::Naming { account_token } => {
                        &&& asked is ReadHostNames && i == 4 && self.config.key is None
                        &&& self.config.account_token == Some(account_token)
                        &&& a.key.loaded == Ok::<Option<String>, String>(None)
                    },
                    KeyStage::Creating => {
                        &&& asked is CreateToken && i == 5 && self.config.key is None
                        &&& self.config.account_token is Some
                        &&& a.key.loaded == Ok::<Option<String>, String>(None)
                    },
                    KeyStage::Saving { key } => {
                        &&& asked is SaveKey && i == 6 && self.config.key is None
                        &&& self.config.account_token is Some
                        &&& a.key.loaded == Ok::<Option<String>, String>(None)
                        &&& a.key.created == Ok::<String, String>(key)
                    },
                }
            },
        }
    }

    proof fn lemma_known(self, i: int)
        requires
            self.valid(),
            0 <= i <= self.actions.len(),
        ensures
            self.known(i),
        decreases i,
    {
        if i > 0 {
            self.lemma_known(i - 1);
            assert(self.step_holds(i - 1));
        }
    }
}

/// A resolution from the very start ends after at most seven actions.
pub proof fn lemma_whole_resolution_ends(r: Resolution)
    requires
        r.valid(),
    ensures
        r.actions.len() <= 7,
        r.actions.len() == 7 ==> is_end(r.actions.last()),
{
    r.lemma_known(r.actions.len() as int);
}

/// A resolution from the very start that has ended gave the first error in the
/// order of its steps, or the key that the manager came to; only to make a new
/// key entropy can be missing.
pub proof fn lemma_whole_resolution_outcome(r: Resolution)
    requires
        r.valid(),
        r.actions.len() > 0,
        is_end(r.actions.last()),
    ensures
        r.actions.last() matches ResolveAction::Key(KeyAction::Finish(outcome))
            && r.answers.may_end_with(r.config, outcome),
{
    r.lemma_known(r.actions.len() as int);
}

/// For an invalid configuration nothing is done but to find that out: no
/// storage is opened, and no key is asked for.
pub proof fn lemma_invalid_configuration_opens_nothing(r: Resolution, cause: String)
    requires
        r.valid(),
        r.answers.validation == Err::<(), String>(cause),
    ensures
        forall|i: int|
            0 <= i < r.actions.len() ==> (#[trigger] r.actions[i]) is ValidateAuth || r.actions[i]
                == ResolveAction::Key(KeyAction::Finish(Err(KeyError::AuthConfig(cause)))),
        r.actions.len() <= 2,
        r.actions.len() == 2 ==> is_end(r.actions.last()),
{
    r.lemma_known(r.actions.len() as int);
    if r.actions.len() > 0 {
        assert(r.step_holds(0));
    }
    if r.actions.len() > 1 {
        assert(r.step_holds(1));
    }
}

/// A storage that cannot be opened ends the resolution: no key is loaded, made
/// or stored.
pub proof fn lemma_unopened_storage_is_not_used(r: Resolution, i: int)
    requires
        r.valid(),
        r.answers.storage is Err,
        0 <= i < r.actions.len(),
    ensures
        r.actions[i] is ValidateAuth || r.actions[i] is OpenStorage || is_end(r.actions[i]),
{
    r.lemma_known(i + 1);
}

/// Whether `action` asks for a key as it should: at the configured address, with
/// the configured account token, and with a nickname of the host, made with
/// bytes that the operating system gave.
pub open spec fn asks_as_configured(config: Config, host: HostNames, action: KeyAction) -> bool {
    &&& action matches KeyAction::CreateToken { account_token, device_nickname, api_url }
    &&& api_url == config.api_url
    &&& config.account_token == Some(account_token)
    &&& device_nickname matches Some(name)
    &&& names_machine(name@, host)
}

/// Whether `s` names the machine: `miner`, then the first name that is known of
/// it, unless it is empty, then the first four of sixteen bytes that the
/// operating system gave, in hexadecimal, with hyphens between them.
pub open spec fn names_machine(s: Seq<char>, host: HostNames) -> bool {
    let known = if host.hostname is Some {
        host.hostname->0@
    } else if host.computername is Some {
        host.computername->0@
    } else if host.hostname_file is Some {
        trimmed(host.hostname_file->0@)
    } else {
        Seq::empty()
    };
    exists|random: Seq<u8>| #[trigger]
        draw_outcome(16, true, random) && s == if known.len() == 0 {
            "miner"@ + "-"@ + hex_encoded(random.subrange(0, 4))
        } else {
            "miner-"@ + known + "-"@ + hex_encoded(random.subrange(0, 4))
        }
}

proof fn lemma_drawn_nickname_names_machine(s: Seq<char>, host: HostNames)
    requires
        drawn_nickname(Some(s), host),
    ensures
        names_machine(s, host),
{
    let (filled, random) = choose|filled: bool, random: Seq<u8>| #[trigger]
        draw_outcome(16, filled, random) && filled && s == nickname(
            host.chosen(),
            uuid_text(random),
        );
    lemma_draw_outcome_len(16, true, random);
    let digits = hex_encoded(uuid_bytes(random));
    lemma_hex_encoded_is_lower_hex(uuid_bytes(random));
    assert(uuid_text(random).subrange(0, 8) =~= digits.subrange(0, 8));
    assert(digits.subrange(0, 8) =~= hex_encoded(random.subrange(0, 4)));
    assert(draw_outcome(16, true, random));
}

/// Whenever a resolution asks for a key, it asks as configured.
pub proof fn lemma_token_is_asked_for_as_configured(
    config: Config,
    answers: KeyAnswers,
    stages: Seq<KeyStage>,
    actions: Seq<KeyAction>,
    i: int,
)
    requires
        is_resolution(config, answers, stages, actions),
        0 <= i < actions.len(),
        actions[i] is CreateToken,
    ensures
        asks_as_configured(config, answers.host, actions[i]),
{
    lemma_resolution_prefix(config, answers, stages, actions);
    assert(resolution_step(config, answers, stages, actions, 0));
    assert(resolution_step(config, answers, stages, actions, 1));
    assert(resolution_step(config, answers, stages, actions, 2));
    let name = actions[2]->device_nickname;
    lemma_drawn_nickname_names_machine(name->0@, answers.host);
}

/// The same from the very start, where besides the configuration was found
/// valid and the storage was opened.
pub proof fn lemma_whole_resolution_asks_as_configured(r: Resolution, i: int)
    requires
        r.valid(),
        0 <= i < r.actions.len(),
        r.actions[i] matches ResolveAction::Key(asked) && asked is CreateToken,
    ensures
        r.answers.validation is Ok,
        r.answers.storage is Ok,
        asks_as_configured(r.config, r.answers.key.host, r.actions[i]->Key_0),
{
    assert(r.step_holds(i));
    r.lemma_known(i);
    r.lemma_known(i + 1);
    let name = r.actions[i]->Key_0->device_nickname;
    lemma_drawn_nickname_names_machine(name->0@, r.answers.key.host);
}

/// What a resolution that has ended gave, case by case.
///
/// A configured key is given as it is. Else the storage is looked at, and a
/// stored key is given as it is. Else a key is made, which needs an account
/// token and entropy; it is given as it was made, once it has been stored.
pub proof fn lemma_resolution_outcome_by_cases(
    config: Config,
    answers: KeyAnswers,
    stages: Seq<KeyStage>,
    actions: Seq<KeyAction>,
)
    requires
        is_resolution(config, answers, stages, actions),
        actions.len() > 0,
        actions.last() is Finish,
    ensures
        config.key is Some ==> actions.last() == KeyAction::Finish(Ok(config.key->0)),
        config.key is None ==> actions[0] is LoadKey,
        config.key is None && answers.loaded is Err ==> actions.last() == KeyAction::Finish(
            Err(KeyError::Storage(answers.loaded->Err_0)),
        ),
        config.key is None && answers.loaded is Ok && answers.loaded->Ok_0 is Some
            ==> actions.last() == KeyAction::Finish(Ok(answers.loaded->Ok_0->0)),
        config.key is None && answers.loaded is Ok && answers.loaded->Ok_0 is None ==> {
            if config.account_token is None {
                actions.last() == KeyAction::Finish(Err(KeyError::AccountTokenMissing))
            } else if actions.last() == KeyAction::Finish(Err(KeyError::NoEntropy)) {
                exists|bytes: Seq<u8>| #[trigger] draw_outcome(16, false, bytes)
            } else if answers.created is Err {
                actions.last() == KeyAction::Finish(Err(KeyError::Token(answers.created->Err_0)))
            } else if answers.saved is Err {
                actions.last() == KeyAction::Finish(Err(KeyError::Storage(answers.saved->Err_0)))
            } else {
                &&& actions.last() == KeyAction::Finish(Ok(answers.created->Ok_0))
                &&& actions.len() == 5
                &&& actions[3] == (KeyAction::SaveKey { key: answers.created->Ok_0 })
                &&& actions[2] is CreateToken
            }
        },
{
    lemma_resolution_prefix(config, answers, stages, actions);
    assert(resolution_step(config, answers, stages, actions, 0));
    if actions.len() > 1 {
        assert(resolution_step(config, answers, stages, actions, 1));
    }
    if actions.len() > 2 {
        assert(resolution_step(config, answers, stages, actions, 2));
    }
    if actions.len() > 3 {
        assert(resolution_step(config, answers, stages, actions, 3));
    }
    if actions.len() > 4 {
        assert(resolution_step(config, answers, stages, actions, 4));
    }
}

/// From the very start, case by case: an invalid configuration is reported with
/// its cause, then a storage that cannot be opened with its own; else the
/// manager of the opened storage decides, as from its start.
pub proof fn lemma_whole_resolution_by_cases(r: Resolution)
    requires
        r.valid(),
        r.actions.len() > 0,
        is_end(r.actions.last()),
    ensures
        r.actions[0] is ValidateAuth,
        r.answers.validation is Err ==> r.actions.last() == ResolveAction::Key(
            KeyAction::Finish(Err(KeyError::AuthConfig(r.answers.validation->Err_0))),
        ),
        r.answers.validation is Ok ==> r.actions[1] is OpenStorage,
        r.answers.validation is Ok && r.answers.storage is Err ==> r.actions.last()
            == ResolveAction::Key(
            KeyAction::Finish(Err(KeyError::Storage(r.answers.storage->Err_0))),
        ),
        r.answers.validation is Ok && r.answers.storage is Ok && r.config.key is Some
            ==> r.actions.last() == ResolveAction::Key(KeyAction::Finish(Ok(r.config.key->0))),
        r.answers.validation is Ok && r.answers.storage is Ok && r.config.key is None
            && r.answers.key.loaded is Ok && r.answers.key.loaded->Ok_0 is Some ==> r.actions.last()
            == ResolveAction::Key(KeyAction::Finish(Ok(r.answers.key.loaded->Ok_0->0))),
{
    let n = r.actions.len() as int;
    r.lemma_known(n);
    assert(r.step_holds(0));
    if n > 1 {
        assert(r.step_holds(1));
    }
}

/// The manager of a resolution is that of the storage that was opened.
pub proof fn lemma_manager_is_of_the_opened_storage(r: Resolution, i: int)
    requires
        r.valid(),
        0 <= i <= r.actions.len(),
        r.stages[i] is Managing,
    ensures
        r.answers.storage is Ok,
        r.stages[i]->manager.path() == r.answers.storage->Ok_0@,
{
    r.lemma_known(i);
}

/// What is shown of each error.
pub proof fn lemma_key_messages(text: String)
    ensures
        KeyError::AuthConfig(text).message_text() == "Authentication configuration error: "@ + text@,
        KeyError::Storage(text).message_text() == text@,
        KeyError::AccountTokenMissing.message_text()
            == "Account token is required for authentication"@,
        KeyError::Token(text).message_text() == text@,
{
}

/// Whether a reply answers what a resolution waits for.
pub open spec fn awaited(stage: KeyStage, reply: KeyReply) -> bool {
    match stage {
        KeyStage::Start => reply is Begin,
        KeyStage::Loading => reply is Loaded,
        KeyStage::Naming { .. } => reply is Named,
        KeyStage::Creating => reply is Created,
        KeyStage::Saving { .. } => reply is Saved,
    }
}

/// What a resolution does not wait for changes nothing.
pub proof fn lemma_unawaited_replies_change_nothing(
    config: Config,
    stage: KeyStage,
    reply: KeyReply,
    next: KeyStage,
    action: KeyAction,
)
    requires
        key_step(config, stage, reply, next, action),
        !awaited(stage, reply),
    ensures
        next == stage,
        action is Ignore,
{
}

} // verus!
