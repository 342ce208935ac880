//! Self-update: which release is for this machine, whether it is new, and the
//! steps that install it.

use vstd::prelude::*;

use crate::http::{is_success, success_code, HttpStatus};
use crate::text::{lossy_utf8, same, utf8_lossy_text};

verus! {

/// A file of a release.
#[derive(Debug)]
pub struct ReleaseAsset {
    pub name: String,
    pub browser_download_url: String,
    pub size: u64,
}

/// A release.
#[derive(Debug)]
pub struct GitHubRelease {
    pub tag_name: String,
    pub name: String,
    pub published_at: String,
    pub assets: Vec<ReleaseAsset>,
}

/// The systems that releases are made for.
#[derive(Debug, Clone, Copy, PartialEq, Eq, Structural)]
pub enum OperatingSystem {
    MacOS,
    Linux,
}

/// How the latest release compares with the running version.
#[derive(Debug)]
pub struct UpdateInfo {
    pub current_version: String,
    pub latest_version: String,
    pub download_url: String,
    pub asset_name: String,
    pub needs_update: bool,
}

impl Clone for ReleaseAsset {
    fn clone(&self) -> (r: Self)
        ensures
            r == *self,
    {
        ReleaseAsset {
            name: self.name.clone(),
            browser_download_url: self.browser_download_url.clone(),
            size: self.size,
        }
    }
}

impl Clone for GitHubRelease {
    fn clone(&self) -> (r: Self)
        ensures
            r.tag_name == self.tag_name,
            r.name == self.name,
            r.published_at == self.published_at,
            r.assets@ == self.assets@,
    {
        let mut assets: Vec<ReleaseAsset> = Vec::new();
        let mut i: usize = 0;
        while i < self.assets.len()
            invariant
                i <= self.assets@.len(),
                assets@ =~= self.assets@.subrange(0, i as int),
            decreases self.assets@.len() - i,
        {
            assets.push(self.assets[i].clone());
            i = i + 1;
        }
        assert(assets@ =~= self.assets@);
        GitHubRelease {
            tag_name: self.tag_name.clone(),
            name: self.name.clone(),
            published_at: self.published_at.clone(),
            assets,
        }
    }
}

impl Clone for UpdateInfo {
    fn clone(&self) -> (r: Self)
        ensures
            r == *self,
    {
        UpdateInfo {
            current_version: self.current_version.clone(),
            latest_version: self.latest_version.clone(),
            download_url: self.download_url.clone(),
            asset_name: self.asset_name.clone(),
            needs_update: self.needs_update,
        }
    }
}

/// Why an update failed.
#[derive(Debug)]
pub enum UpdateError {
    /// Something outside failed, with this message.
    Outside(String),
    UnsupportedOs(String),
    ReleaseStatus(String),
    NoAsset(String),
    BinaryStatus(String),
    PackageStatus(String),
    Installation(String),
    Restart(String),
}

impl UpdateError {
    /// The message that is shown.
    pub open spec fn message_text(self) -> Seq<char> {
        match self {
            UpdateError::Outside(cause) => cause@,
            UpdateError::UnsupportedOs(os) => "Unsupported operating system: "@ + os@,
            UpdateError::ReleaseStatus(s) => "Failed to fetch release info: HTTP "@ + s@,
            UpdateError::NoAsset(name) => "No compatible asset found for "@ + name@,
            UpdateError::BinaryStatus(s) => "Failed to download binary: HTTP "@ + s@,
            UpdateError::PackageStatus(s) => "Failed to download package: HTTP "@ + s@,
            UpdateError::Installation(text) => "Package installation failed: "@ + text@,
            UpdateError::Restart(cause) => "Failed to restart process: "@ + cause@,
        }
    }

    /// The message that is shown.
    pub fn message(&self) -> (r: String)
        ensures
            r@ == self.message_text(),
    {
        match self {
            UpdateError::Outside(cause) => cause.clone(),
            UpdateError::UnsupportedOs(os) => "Unsupported operating system: ".to_owned().concat(
                os.as_str(),
            ),
            UpdateError::ReleaseStatus(s) => "Failed to fetch release info: HTTP ".to_owned().concat(
                s.as_str(),
            ),
            UpdateError::NoAsset(name) => "No compatible asset found for ".to_owned().concat(
                name.as_str(),
            ),
            UpdateError::BinaryStatus(s) => "Failed to download binary: HTTP ".to_owned().concat(
                s.as_str(),
            ),
            UpdateError::PackageStatus(s) => "Failed to download package: HTTP ".to_owned().concat(
                s.as_str(),
            ),
            UpdateError::Installation(text) => "Package installation failed: ".to_owned().concat(
                text.as_str(),
            ),
            UpdateError::Restart(cause) => "Failed to restart process: ".to_owned().concat(
                cause.as_str(),
            ),
        }
    }
}

// ------------------------------------------------------------ systems

/// The system that a name stands for.
pub open spec fn system_named(os: Seq<char>) -> Option<OperatingSystem> {
    if os == "linux"@ {
        Some(OperatingSystem::Linux)
    } else if os == "macos"@ {
        Some(OperatingSystem::MacOS)
    } else {
        None
    }
}

/// The system that a name stands for.
pub fn detect_os(os: &str) -> (r: Result<OperatingSystem, UpdateError>)
    ensures
        match r {
            Ok(system) => system_named(os@) == Some(system),
            Err(e) => {
                &&& system_named(os@) is None
                &&& e matches UpdateError::UnsupportedOs(name)
                &&& name@ == os@
            },
        },
{
    if same(os, "linux") {
        Ok(OperatingSystem::Linux)
    } else if same(os, "macos") {
        Ok(OperatingSystem::MacOS)
    } else {
        Err(UpdateError::UnsupportedOs(os.to_owned()))
    }
}

/// The name of the file that a release holds for a system.
pub open spec fn asset_name(os: OperatingSystem) -> Seq<char> {
    match os {
        OperatingSystem::Linux => "nockpool-miner-linux-x86_64"@,
        OperatingSystem::MacOS => "nockpool-miner-macos-aarch64.pkg"@,
    }
}

/// Whether `i` is the place of the first file with this name.
pub open spec fn first_named(assets: Seq<ReleaseAsset>, name: Seq<char>, i: int) -> bool {
    &&& 0 <= i < assets.len()
    &&& assets[i].name@ == name
    &&& forall|j: int| 0 <= j < i ==> (#[trigger] assets[j]).name@ != name
}

/// Whether there is no file with this name.
pub open spec fn none_named(assets: Seq<ReleaseAsset>, name: Seq<char>) -> bool {
    forall|j: int| 0 <= j < assets.len() ==> (#[trigger] assets[j]).name@ != name
}

/// Whether `r` is how a release compares with the running version.
pub open spec fn compares(
    os: OperatingSystem,
    current_version: Seq<char>,
    release: GitHubRelease,
    r: Result<UpdateInfo, UpdateError>,
) -> bool {
    match r {
        Ok(info) => {
            &&& info.current_version@ == current_version
            &&& info.latest_version == release.tag_name
            &&& info.needs_update == (current_version != release.tag_name@)
            &&& exists|i: int| #[trigger]
                first_named(release.assets@, asset_name(os), i) && info.download_url
                    == release.assets@[i].browser_download_url && info.asset_name
                    == release.assets@[i].name
        },
        Err(e) => {
            &&& none_named(release.assets@, asset_name(os))
            &&& e matches UpdateError::NoAsset(name)
            &&& name@ == asset_name(os)
        },
    }
}

// ------------------------------------------------------------ client

/// How the HTTP client is set up.
#[derive(Debug)]
pub struct ClientConfig {
    pub user_agent: String,
    pub timeout_secs: u64,
}

/// How the HTTP client is set up.
pub fn client_config() -> (r: ClientConfig)
    ensures
        r.user_agent@ == "nockpool-miner-updater"@,
        r.timeout_secs == 30,
{
    ClientConfig { user_agent: "nockpool-miner-updater".to_owned(), timeout_secs: 30 }
}

// ------------------------------------------------------------ steps

/// What an update waits for.
#[derive(Debug)]
pub enum UpdateStage {
    /// It has not begun, or it has ended.
    Start,
    /// The response with the latest release.
    AwaitingRelease,
    /// The content of that response.
    ReadingRelease,
    /// The response with the file.
    AwaitingDownload,
    /// The content of that response.
    ReadingDownload,
    /// Whether there is a backup.
    CheckingBackup { data: Vec<u8> },
    /// The end of removing the backup.
    RemovingBackup { data: Vec<u8> },
    /// The end of copying the executable.
    CopyingBackup { data: Vec<u8> },
    /// The end of overwriting the executable.
    WritingBinary,
    /// The end of making it executable.
    MakingExecutable,
    /// The end of saving the package.
    SavingPackage,
    /// The end of the installer.
    Installing,
    /// The start of the new process.
    Restarting,
}

/// How an installer ended.
#[derive(Debug)]
pub struct InstallerExit {
    pub success: bool,
    pub stderr: Vec<u8>,
}

/// What came.
#[derive(Debug)]
pub enum UpdateReply {
    Begin,
    Responded(Result<HttpStatus, String>),
    ReleaseRead(Result<GitHubRelease, String>),
    BodyRead(Result<Vec<u8>, String>),
    BackupExists(bool),
    Done(Result<(), String>),
    Installed(Result<InstallerExit, String>),
}

/// What is to be done next.
#[derive(Debug)]
pub enum UpdateAction {
    /// Ask for the latest release.
    GetRelease { url: String, accept: String },
    /// Read the release from the response.
    ReadRelease,
    /// Ask for a file.
    Download { url: String },
    /// Read the file from the response.
    ReadBody,
    /// Look for a backup: the file with the executable's path and another
    /// extension.
    CheckBackup { extension: String },
    /// Remove the backup.
    RemoveBackup { extension: String },
    /// Copy the executable to the backup.
    CopyToBackup { extension: String },
    /// Overwrite the executable.
    WriteBinary { data: Vec<u8> },
    /// Set the executable's mode.
    SetMode { mode: u32 },
    /// Save the package to a temporary file.
    SavePackage { data: Vec<u8>, suffix: String },
    /// Run the installer, with the package's path between its arguments.
    RunInstaller { program: String, before: Vec<String>, after: Vec<String> },
    /// Start the executable with this process's arguments.
    Restart,
    /// End this process.
    Exit,
    /// End with this result: whether an update was made.
    Finish(Result<bool, UpdateError>),
    /// Nothing: what came was not waited for.
    Ignore,
}

/// Whether the update ends in an error.
pub open spec fn fails_with(next: UpdateStage, action: UpdateAction, e: UpdateError) -> bool {
    next is Start && action == UpdateAction::Finish(Err(e))
}

/// Whether the update goes on after the installation: with a restart, or to
/// its end.
pub open spec fn after_installation(
    restart: bool,
    next: UpdateStage,
    action: UpdateAction,
) -> bool {
    if restart {
        action is Restart && next is Restarting
    } else {
        action == UpdateAction::Finish(Ok(true)) && next is Start
    }
}

/// Whether the update goes on as it should with a release: it fails if there
/// is no file for the system, ends if the release is the running version, and
/// else asks for the file.
pub open spec fn after_release(
    os: OperatingSystem,
    current_version: Seq<char>,
    release: GitHubRelease,
    next: UpdateStage,
    action: UpdateAction,
) -> bool {
    if none_named(release.assets@, asset_name(os)) {
        &&& next is Start
        &&& action matches UpdateAction::Finish(Err(UpdateError::NoAsset(name)))
        &&& name@ == asset_name(os)
    } else if release.tag_name@ == current_version {
        next is Start && action == UpdateAction::Finish(Ok(false))
    } else {
        &&& next is AwaitingDownload
        &&& action matches UpdateAction::Download { url }
        &&& exists|i: int| #[trigger]
            first_named(release.assets@, asset_name(os), i) && url
                == release.assets@[i].browser_download_url
    }
}

/// Whether `action`, and then waiting in `next`, is what follows when `reply`
/// comes at `stage`.
pub open spec fn update_step(
    os: OperatingSystem,
    restart: bool,
    current_version: Seq<char>,
    stage: UpdateStage,
    reply: UpdateReply,
    next: UpdateStage,
    action: UpdateAction,
) -> bool {
    match (stage, reply) {
        (UpdateStage::Start, UpdateReply::Begin) => {
            &&& next is AwaitingRelease
            &&& action matches UpdateAction::GetRelease { url, accept }
            &&& url@ == "https://api.github.com/repos/swpsco/nockpool-miner/releases/latest"@
            &&& accept@ == "application/vnd.github.v3+json"@
        },
        (UpdateStage::AwaitingRelease, UpdateReply::Responded(Ok(status))) => if success_code(
            status.code,
        ) {
            action is ReadRelease && next is ReadingRelease
        } else {
            fails_with(next, action, UpdateError::ReleaseStatus(status.text))
        },
        (UpdateStage::ReadingRelease, UpdateReply::ReleaseRead(Ok(release))) => {
            after_release(os, current_version, release, next, action)
        },
        (UpdateStage::AwaitingDownload, UpdateReply::Responded(Ok(status))) => if success_code(
            status.code,
        ) {
            action is ReadBody && next is ReadingDownload
        } else {
            match os {
                OperatingSystem::Linux => fails_with(
                    next,
                    action,
                    UpdateError::BinaryStatus(status.text),
                ),
                OperatingSystem::MacOS => fails_with(
                    next,
                    action,
                    UpdateError::PackageStatus(status.text),
                ),
            }
        },
        (UpdateStage::ReadingDownload, UpdateReply::BodyRead(Ok(data))) => match os {
            OperatingSystem::Linux => {
                &&& action matches UpdateAction::CheckBackup { extension }
                &&& extension@ == "backup"@
                &&& next == (UpdateStage::CheckingBackup { data })
            },
            OperatingSystem::MacOS => {
                &&& action matches UpdateAction::SavePackage { data: saved, suffix }
                &&& saved == data
                &&& suffix@ == ".pkg"@
                &&& next is SavingPackage
            },
        },
        (UpdateStage::CheckingBackup { data }, UpdateReply::BackupExists(exists_already)) => {
            if exists_already {
                &&& action matches UpdateAction::RemoveBackup { extension }
                &&& extension@ == "backup"@
                &&& next == (UpdateStage::RemovingBackup { data })
            } else {
                &&& action matches UpdateAction::CopyToBackup { extension }
                &&& extension@ == "backup"@
                &&& next == (UpdateStage::CopyingBackup { data })
            }
        },
        (UpdateStage::RemovingBackup { data }, UpdateReply::Done(Ok(_))) => {
            &&& action matches UpdateAction::CopyToBackup { extension }
            &&& extension@ == "backup"@
            &&& next == (UpdateStage::CopyingBackup { data })
        },
        (UpdateStage::CopyingBackup { data }, UpdateReply::Done(Ok(_))) => {
            &&& action == (UpdateAction::WriteBinary { data })
            &&& next is WritingBinary
        },
        (UpdateStage::WritingBinary, UpdateReply::Done(Ok(_))) => {
            &&& action == (UpdateAction::SetMode { mode: 0o755 })
            &&& next is MakingExecutable
        },
        (UpdateStage::MakingExecutable, UpdateReply::Done(Ok(_))) => {
            after_installation(restart, next, action)
        },
        (UpdateStage::SavingPackage, UpdateReply::Done(Ok(_))) => {
            &&& action matches UpdateAction::RunInstaller { program, before, after }
            &&& program@ == "sudo"@
            &&& before@.len() == 2 && before@[0]@ == "installer"@ && before@[1]@ == "-pkg"@
            &&& after@.len() == 2 && after@[0]@ == "-target"@ && after@[1]@ == "/"@
            &&& next is Installing
        },
        (UpdateStage::Installing, UpdateReply::Installed(Ok(exit))) => if exit.success {
            after_installation(restart, next, action)
        } else {
            &&& next is Start
            &&& action matches UpdateAction::Finish(Err(UpdateError::Installation(text)))
            &&& text@ == lossy_utf8(exit.stderr@)
        },
        (UpdateStage::Restarting, UpdateReply::Done(Ok(_))) => action is Exit && next is Start,
        (UpdateStage::Restarting, UpdateReply::Done(Err(cause))) => fails_with(
            next,
            action,
            UpdateError::Restart(cause),
        ),
        (UpdateStage::AwaitingRelease, UpdateReply::Responded(Err(cause)))
        | (UpdateStage::ReadingRelease, UpdateReply::ReleaseRead(Err(cause)))
        | (UpdateStage::AwaitingDownload, UpdateReply::Responded(Err(cause)))
        | (UpdateStage::ReadingDownload, UpdateReply::BodyRead(Err(cause)))
        | (UpdateStage::RemovingBackup { .. }, UpdateReply::Done(Err(cause)))
        | (UpdateStage::CopyingBackup { .. }, UpdateReply::Done(Err(cause)))
        | (UpdateStage::WritingBinary, UpdateReply::Done(Err(cause)))
        | (UpdateStage::MakingExecutable, UpdateReply::Done(Err(cause)))
        | (UpdateStage::SavingPackage, UpdateReply::Done(Err(cause)))
        | (UpdateStage::Installing, UpdateReply::Installed(Err(cause))) => fails_with(
            next,
            action,
            UpdateError::Outside(cause),
        ),
        _ => action is Ignore && next == stage,
    }
}

// ------------------------------------------------------------ updater

/// Updates this program.
#[derive(Debug)]
pub struct AutoUpdater {
    os: OperatingSystem,
}

fn fail(e: UpdateError) -> (r: (UpdateStage, UpdateAction))
    ensures
        fails_with(r.0, r.1, e),
{
    (UpdateStage::Start, UpdateAction::Finish(Err(e)))
}

fn finish_installation(restart: bool) -> (r: (UpdateStage, UpdateAction))
    ensures
        after_installation(restart, r.0, r.1),
{
    if restart {
        (UpdateStage::Restarting, UpdateAction::Restart)
    } else {
        (UpdateStage::Start, UpdateAction::Finish(Ok(true)))
    }
}

impl AutoUpdater {
    pub closed spec fn system(self) -> OperatingSystem {
        self.os
    }

    /// An updater, given whether a client could be built, whether the path of
    /// the executable is known, and the name of the system. The first of these
    /// that is in the way is reported.
    pub fn new(client: Result<(), String>, exe: Result<(), String>, os: &str) -> (r: Result<
        AutoUpdater,
        UpdateError,
    >)
        ensures
            match r {
                Ok(updater) => {
                    &&& client is Ok
                    &&& exe is Ok
                    &&& system_named(os@) == Some(updater.system())
                },
                Err(e) => match (client, exe) {
                    (Err(cause), _) => e == UpdateError::Outside(cause),
                    (Ok(_), Err(cause)) => e == UpdateError::Outside(cause),
                    (Ok(_), Ok(_)) => {
                        &&& system_named(os@) is None
                        &&& e matches UpdateError::UnsupportedOs(name)
                        &&& name@ == os@
                    },
                },
            },
    {
        if let Err(cause) = client {
            return Err(UpdateError::Outside(cause));
        }
        if let Err(cause) = exe {
            return Err(UpdateError::Outside(cause));
        }
        match detect_os(os) {
            Ok(os) => Ok(AutoUpdater { os }),
            Err(e) => Err(e),
        }
    }

    /// The first file of a release that is for this system.
    pub fn find_compatible_asset<'a>(&self, assets: &'a Vec<ReleaseAsset>) -> (r: Result<
        &'a ReleaseAsset,
        UpdateError,
    >)
        ensures
            match r {
                Ok(asset) => exists|i: int| #[trigger]
                    first_named(assets@, asset_name(self.system()), i) && *asset == assets@[i],
                Err(e) => {
                    &&& none_named(assets@, asset_name(self.system()))
                    &&& e matches UpdateError::NoAsset(name)
                    &&& name@ == asset_name(self.system())
                },
            },
    {
        let expected = match self.os {
            OperatingSystem::Linux => "nockpool-miner-linux-x86_64",
            OperatingSystem::MacOS => "nockpool-miner-macos-aarch64.pkg",
        };
        let mut i: usize = 0;
        while i < assets.len()
            invariant
                i <= assets@.len(),
                expected@ == asset_name(self.system()),
                forall|j: int| 0 <= j < i ==> (#[trigger] assets@[j]).name@ != expected@,
            decreases assets@.len() - i,
        {
            if same(assets[i].name.as_str(), expected) {
                assert(first_named(assets@, asset_name(self.system()), i as int));
                return Ok(&assets[i]);
            }
            i = i + 1;
        }
        Err(UpdateError::NoAsset(expected.to_owned()))
    }

    /// How a release compares with the running version. A release that is not
    /// the running version is an update.
    pub fn check_for_updates(&self, current_version: &str, release: &GitHubRelease) -> (r: Result<
        UpdateInfo,
        UpdateError,
    >)
        ensures
            compares(self.system(), current_version@, *release, r),
    {
        let asset = match self.find_compatible_asset(&release.assets) {
            Ok(asset) => asset,
            Err(e) => return Err(e),
        };
        let needs_update = !same(current_version, release.tag_name.as_str());
        Ok(
            UpdateInfo {
                current_version: current_version.to_owned(),
                latest_version: release.tag_name.clone(),
                download_url: asset.browser_download_url.clone(),
                asset_name: asset.name.clone(),
                needs_update,
            },
        )
    }

    /// Goes on with a release.
    fn take_release(&self, current_version: &str, release: &GitHubRelease) -> (r: (
        UpdateStage,
        UpdateAction,
    ))
        ensures
            after_release(self.system(), current_version@, *release, r.0, r.1),
    {
        match self.check_for_updates(current_version, release) {
            Err(e) => fail(e),
            Ok(info) => {
                proof {
                    let i = choose|i: int| #[trigger]
                        first_named(release.assets@, asset_name(self.system()), i)
                            && info.download_url == release.assets@[i].browser_download_url
                            && info.asset_name == release.assets@[i].name;
                    assert(release.assets@[i].name@ == asset_name(self.system()));
                }
                if !info.needs_update {
                    (UpdateStage::Start, UpdateAction::Finish(Ok(false)))
                } else {
                    (UpdateStage::AwaitingDownload, UpdateAction::Download { url: info.download_url })
                }
            },
        }
    }

    /// The next step of an update.
    fn step(
        &self,
        restart: bool,
        current_version: &str,
        stage: UpdateStage,
        reply: UpdateReply,
    ) -> (r: (UpdateStage, UpdateAction))
        ensures
            update_step(self.system(), restart, current_version@, stage, reply, r.0, r.1),
    {
        match (stage, reply) {
            (UpdateStage::Start, UpdateReply::Begin) => (
                UpdateStage::AwaitingRelease,
                UpdateAction::GetRelease {
                    url: "https://api.github.com/repos/swpsco/nockpool-miner/releases/latest".to_owned(),
                    accept: "application/vnd.github.v3+json".to_owned(),
                },
            ),
            (UpdateStage::AwaitingRelease, UpdateReply::Responded(Ok(status))) => {
                if is_success(status.code) {
                    (UpdateStage::ReadingRelease, UpdateAction::ReadRelease)
                } else {
                    fail(UpdateError::ReleaseStatus(status.text))
                }
            },
            (UpdateStage::ReadingRelease, UpdateReply::ReleaseRead(Ok(release))) => {
                self.take_release(current_version, &release)
            },
            (UpdateStage::AwaitingDownload, UpdateReply::Responded(Ok(status))) => {
                if is_success(status.code) {
                    (UpdateStage::ReadingDownload, UpdateAction::ReadBody)
                } else {
                    match self.os {
                        OperatingSystem::Linux => fail(UpdateError::BinaryStatus(status.text)),
                        OperatingSystem::MacOS => fail(UpdateError::PackageStatus(status.text)),
                    }
                }
            },
            (UpdateStage::ReadingDownload, UpdateReply::BodyRead(Ok(data))) => match self.os {
                OperatingSystem::Linux => (
                    UpdateStage::CheckingBackup { data },
                    UpdateAction::CheckBackup { extension: "backup".to_owned() },
                ),
                OperatingSystem::MacOS => (
                    UpdateStage::SavingPackage,
                    UpdateAction::SavePackage { data, suffix: ".pkg".to_owned() },
                ),
            },
            (UpdateStage::CheckingBackup { data }, UpdateReply::BackupExists(exists_already)) => {
                if exists_already {
                    (
                        UpdateStage::RemovingBackup { data },
                        UpdateAction::RemoveBackup { extension: "backup".to_owned() },
                    )
                } else {
                    (
                        UpdateStage::CopyingBackup { data },
                        UpdateAction::CopyToBackup { extension: "backup".to_owned() },
                    )
                }
            },
            (UpdateStage::RemovingBackup { data }, UpdateReply::Done(Ok(_))) => {
                (
                    UpdateStage::CopyingBackup { data },
                    UpdateAction::CopyToBackup { extension: "backup".to_owned() },
                )
            },
            (UpdateStage::CopyingBackup { data }, UpdateReply::Done(Ok(_))) => {
                (UpdateStage::WritingBinary, UpdateAction::WriteBinary { data })
            },
            (UpdateStage::WritingBinary, UpdateReply::Done(Ok(_))) => {
                (UpdateStage::MakingExecutable, UpdateAction::SetMode { mode: 0o755 })
            },
            (UpdateStage::MakingExecutable, UpdateReply::Done(Ok(_))) => {
                finish_installation(restart)
            },
            (UpdateStage::SavingPackage, UpdateReply::Done(Ok(_))) => {
                (
                    UpdateStage::Installing,
                    UpdateAction::RunInstaller {
                        program: "sudo".to_owned(),
                        before: vec!["installer".to_owned(), "-pkg".to_owned()],
                        after: vec!["-target".to_owned(), "/".to_owned()],
                    },
                )
            },
            (UpdateStage::Installing, UpdateReply::Installed(Ok(exit))) => {
                if exit.success {
                    finish_installation(restart)
                } else {
                    fail(UpdateError::Installation(utf8_lossy_text(&exit.stderr)))
                }
            },
            (UpdateStage::Restarting, UpdateReply::Done(Ok(_))) => {
                (UpdateStage::Start, UpdateAction::Exit)
            },
            (UpdateStage::Restarting, UpdateReply::Done(Err(cause))) => {
                fail(UpdateError::Restart(cause))
            },
            (UpdateStage::AwaitingRelease, UpdateReply::Responded(Err(cause)))
            | (UpdateStage::ReadingRelease, UpdateReply::ReleaseRead(Err(cause)))
            | (UpdateStage::AwaitingDownload, UpdateReply::Responded(Err(cause)))
            | (UpdateStage::ReadingDownload, UpdateReply::BodyRead(Err(cause)))
            | (UpdateStage::RemovingBackup { .. }, UpdateReply::Done(Err(cause)))
            | (UpdateStage::CopyingBackup { .. }, UpdateReply::Done(Err(cause)))
            | (UpdateStage::WritingBinary, UpdateReply::Done(Err(cause)))
            | (UpdateStage::MakingExecutable, UpdateReply::Done(Err(cause)))
            | (UpdateStage::SavingPackage, UpdateReply::Done(Err(cause)))
            | (UpdateStage::Installing, UpdateReply::Installed(Err(cause))) => {
                fail(UpdateError::Outside(cause))
            },
            (stage, _) => (stage, UpdateAction::Ignore),
        }
    }

    /// The next step of an update after which this process goes on.
    pub fn update(&self, current_version: &str, stage: UpdateStage, reply: UpdateReply) -> (r: (
        UpdateStage,
        UpdateAction,
    ))
        ensures
            update_step(self.system(), false, current_version@, stage, reply, r.0, r.1),
    {
        self.step(false, current_version, stage, reply)
    }

    /// The next step of an update after which the new version takes over.
    pub fn update_and_restart(
        &self,
        current_version: &str,
        stage: UpdateStage,
        reply: UpdateReply,
    ) -> (r: (UpdateStage, UpdateAction))
        ensures
            update_step(self.system(), true, current_version@, stage, reply, r.0, r.1),
    {
        self.step(true, current_version, stage, reply)
    }
}

/// The arguments of a process without the path of the executable, which comes
/// first.
pub open spec fn without_program(args: Seq<String>) -> Seq<String> {
    args.subrange(1, args.len() as int)
}

/// The arguments of the new process: those of this one, without the path of
/// the executable, which comes first.
pub fn restart_args(args: &Vec<String>) -> (r: Vec<String>)
    requires
        args@.len() > 0,
    ensures
        r@ == without_program(args@),
{
    let mut r: Vec<String> = Vec::new();
    let mut i: usize = 1;
    while i < args.len()
        invariant
            1 <= i <= args@.len(),
            r@ =~= args@.subrange(1, i as int),
        decreases args@.len() - i,
    {
        r.push(args[i].clone());
        i = i + 1;
    }
    r
}

// ------------------------------------------------------------ laws

/// What the world answers to the actions of an update.
pub struct UpdateAnswers {
    pub release_response: Result<HttpStatus, String>,
    pub release: Result<GitHubRelease, String>,
    pub download_response: Result<HttpStatus, String>,
    pub body: Result<Vec<u8>, String>,
    pub backup_exists: bool,
    pub removed: Result<(), String>,
    pub copied: Result<(), String>,
    pub written: Result<(), String>,
    pub mode_set: Result<(), String>,
    pub saved: Result<(), String>,
    pub installed: Result<InstallerExit, String>,
    pub restarted: Result<(), String>,
}

impl UpdateAnswers {
    /// The reply to an action.
    pub open spec fn reply(self, action: UpdateAction) -> UpdateReply {
        match action {
            UpdateAction::GetRelease { .. } => UpdateReply::Responded(self.release_response),
            UpdateAction::ReadRelease => UpdateReply::ReleaseRead(self.release),
            UpdateAction::Download { .. } => UpdateReply::Responded(self.download_response),
            UpdateAction::ReadBody => UpdateReply::BodyRead(self.body),
            UpdateAction::CheckBackup { .. } => UpdateReply::BackupExists(self.backup_exists),
            UpdateAction::RemoveBackup { .. } => UpdateReply::Done(self.removed),
            UpdateAction::CopyToBackup { .. } => UpdateReply::Done(self.copied),
            UpdateAction::WriteBinary { .. } => UpdateReply::Done(self.written),
            UpdateAction::SetMode { .. } => UpdateReply::Done(self.mode_set),
            UpdateAction::SavePackage { .. } => UpdateReply::Done(self.saved),
            UpdateAction::RunInstaller { .. } => UpdateReply::Installed(self.installed),
            UpdateAction::Restart => UpdateReply::Done(self.restarted),
            _ => UpdateReply::Begin,
        }
    }

    /// Whether a release came that has a file for the system.
    pub open spec fn usable_release(self, os: OperatingSystem) -> bool {
        &&& self.release_response is Ok && success_code(self.release_response->Ok_0.code)
        &&& self.release is Ok && !none_named(self.release->Ok_0.assets@, asset_name(os))
    }

    /// Whether a new release came, and its file.
    pub open spec fn downloaded(self, os: OperatingSystem, current_version: Seq<char>) -> bool {
        &&& self.usable_release(os)
        &&& self.release->Ok_0.tag_name@ != current_version
        &&& self.download_response is Ok && success_code(self.download_response->Ok_0.code)
        &&& self.body is Ok
    }

    /// Whether the executable was kept in a backup.
    pub open spec fn backed_up(self) -> bool {
        (self.backup_exists ==> self.removed is Ok) && self.copied is Ok
    }

    /// Whether a new release came and was installed.
    pub open spec fn installed_new(self, os: OperatingSystem, current_version: Seq<char>) -> bool {
        &&& self.downloaded(os, current_version)
        &&& match os {
            OperatingSystem::Linux => self.backed_up() && self.written is Ok && self.mode_set is Ok,
            OperatingSystem::MacOS => self.saved is Ok && self.installed is Ok
                && self.installed->Ok_0.success,
        }
    }
}

/// One course of an update: what is updated, what the world answers, the
/// actions, and the stages before, between and after them.
pub struct Course {
    pub os: OperatingSystem,
    pub restart: bool,
    pub current_version: Seq<char>,
    pub answers: UpdateAnswers,
    pub stages: Seq<UpdateStage>,
    pub actions: Seq<UpdateAction>,
}

impl Course {
    /// Whether step `i` is as it should be: the first step begins, and each
    /// later one takes the reply to the action before it, which is no end.
    pub open spec fn step_holds(self, i: int) -> bool {
        let reply = if i == 0 {
            UpdateReply::Begin
        } else {
            self.answers.reply(self.actions[i - 1])
        };
        &&& update_step(
            self.os,
            self.restart,
            self.current_version,
            self.stages[i],
            reply,
            self.stages[i + 1],
            self.actions[i],
        )
        &&& i > 0 ==> !(self.actions[i - 1] is Finish) && !(self.actions[i - 1] is Exit)
    }

    /// Whether this is a course of an update, which may not have come to its
    /// end.
    pub open spec fn valid(self) -> bool {
        &&& self.stages.len() == self.actions.len() + 1
        &&& self.stages[0] is Start
        &&& forall|i: int| 0 <= i < self.actions.len() ==> #[trigger] self.step_holds(i)
    }

    /// What is known when `i` actions have been taken.
    spec fn known(self, i: int) -> bool {
        let a = self.answers;
        let last = self.actions[i - 1];
        match self.stages[i] {
            UpdateStage::Start => i == 0 || match last {
                UpdateAction::Finish(Ok(true)) => !self.restart && a.installed_new(
                    self.os,
                    self.current_version,
                ),
                UpdateAction::Finish(Ok(false)) => i == 3 && a.usable_release(self.os)
                    && a.release->Ok_0.tag_name@ == self.current_version,
                UpdateAction::Finish(Err(_)) => !a.installed_new(self.os, self.current_version) || (
                self.restart && a.restarted is Err),
                UpdateAction::Exit => self.restart && a.restarted is Ok && a.installed_new(
                    self.os,
                    self.current_version,
                ),
                _ => false,
            },
            UpdateStage::AwaitingRelease => i == 1 && last is GetRelease,
            UpdateStage::ReadingRelease => {
                &&& i == 2 && last is ReadRelease
                &&& a.release_response is Ok && success_code(a.release_response->Ok_0.code)
            },
            UpdateStage::AwaitingDownload => {
                &&& i == 3 && last is Download
                &&& a.usable_release(self.os)
                &&& a.release->Ok_0.tag_name@ != self.current_version
            },
            UpdateStage::ReadingDownload => {
                &&& i == 4 && last is ReadBody
                &&& a.usable_release(self.os)
                &&& a.release->Ok_0.tag_name@ != self.current_version
                &&& a.download_response is Ok && success_code(a.download_response->Ok_0.code)
            },
            UpdateStage::CheckingBackup { data } => {
                &&& i == 5 && last is CheckBackup && self.os == OperatingSystem::Linux
                &&& a.downloaded(self.os, self.current_version) && a.body->Ok_0 == data
            },
            UpdateStage::RemovingBackup { data } => {
                &&& i == 6 && last is RemoveBackup && self.os == OperatingSystem::Linux
                &&& a.downloaded(self.os, self.current_version) && a.body->Ok_0 == data
                &&& a.backup_exists
            },
            UpdateStage::CopyingBackup { data } => {
                &&& 6 <= i <= 7 && last is CopyToBackup && self.os == OperatingSystem::Linux
                &&& a.downloaded(self.os, self.current_version) && a.body->Ok_0 == data
                &&& a.backup_exists ==> a.removed is Ok
            },
            UpdateStage::WritingBinary => {
                &&& 7 <= i <= 8 && last is WriteBinary && self.os == OperatingSystem::Linux
                &&& a.downloaded(self.os, self.current_version) && a.backed_up()
            },
            UpdateStage::MakingExecutable => {
                &&& 8 <= i <= 9 && last is SetMode && self.os == OperatingSystem::Linux
                &&& a.downloaded(self.os, self.current_version) && a.backed_up() && a.written is Ok
            },
            UpdateStage::SavingPackage => {
                &&& i == 5 && last is SavePackage && self.os == OperatingSystem::MacOS
                &&& a.downloaded(self.os, self.current_version)
            },
            UpdateStage::Installing => {
                &&& i == 6 && last is RunInstaller && self.os == OperatingSystem::MacOS
                &&& a.downloaded(self.os, self.current_version) && a.saved is Ok
            },
            UpdateStage::Restarting => {
                &&& i <= 10 && last is Restart && self.restart
                &&& a.installed_new(self.os, self.current_version)
            },
        }
    }

    proof fn lemma_known(self, i: int)
        requires
            self.valid(),
            0 <= i <= self.actions.len(),
        ensures
            self.known(i),
            i <= 11,
            i == 11 ==> self.stages[i] is Start,
        decreases i,
    {
        if i > 0 {
            self.lemma_known(i - 1);
            assert(self.step_holds(i - 1));
            if i - 1 == 11 {
                assert(self.stages[11] is Start);
                self.lemma_known(11);
            }
        }
    }
}

/// An update ends after at most eleven actions.
pub proof fn lemma_update_ends(c: Course)
    requires
        c.valid(),
    ensures
        c.actions.len() <= 11,
        c.actions.len() == 11 ==> c.actions.last() is Finish || c.actions.last() is Exit,
{
    c.lemma_known(c.actions.len() as int);
}

/// An update reports that it changed nothing if and only if the latest release
/// has a file for this system and is the running version; then it has only
/// looked at the release.
pub proof fn lemma_up_to_date_changes_nothing(c: Course)
    requires
        c.valid(),
        c.actions.len() > 0,
        c.actions.last() is Finish || c.actions.last() is Exit,
    ensures
        c.actions.last() == UpdateAction::Finish(Ok(false)) <==> c.answers.usable_release(c.os)
            && c.answers.release->Ok_0.tag_name@ == c.current_version,
        c.actions.last() == UpdateAction::Finish(Ok(false)) ==> c.actions.len() == 3
            && c.actions[0] is GetRelease && c.actions[1] is ReadRelease,
{
    let n = c.actions.len() as int;
    c.lemma_known(n);
    assert(c.step_holds(0));
    if n > 1 {
        assert(c.step_holds(1));
        c.lemma_known(1);
    }
    if n > 2 {
        assert(c.step_holds(2));
        c.lemma_known(2);
    }
    if n > 3 {
        assert(c.step_holds(3));
        c.lemma_known(3);
    }
    assert(c.step_holds(n - 1));
    c.lemma_known(n - 1);
}

/// An update that ends by itself reports that it updated if and only if a new
/// release came and was installed; and one that restarts lets the new version
/// take over if and only if, besides, the new process could be started.
pub proof fn lemma_update_reports_installation(c: Course)
    requires
        c.valid(),
        c.actions.len() > 0,
        c.actions.last() is Finish || c.actions.last() is Exit,
    ensures
        !c.restart ==> (c.actions.last() == UpdateAction::Finish(Ok(true))
            <==> c.answers.installed_new(c.os, c.current_version)),
        c.restart ==> c.actions.last() != UpdateAction::Finish(Ok(true)),
        c.actions.last() is Exit <==> c.restart && c.answers.installed_new(c.os, c.current_version)
            && c.answers.restarted is Ok,
{
    let n = c.actions.len() as int;
    c.lemma_known(n);
    assert(c.step_holds(n - 1));
    c.lemma_known(n - 1);
}

/// The executable is overwritten only on Linux, with the file of a new release
/// that was downloaded in full, and right after the executable was copied to
/// the backup.
pub proof fn lemma_binary_is_backed_up_first(c: Course, i: int)
    requires
        c.valid(),
        0 <= i < c.actions.len(),
        c.actions[i] is WriteBinary,
    ensures
        c.os == OperatingSystem::Linux,
        c.answers.downloaded(c.os, c.current_version),
        c.actions[i] == (UpdateAction::WriteBinary { data: c.answers.body->Ok_0 }),
        i > 0 && c.actions[i - 1] is CopyToBackup,
        c.answers.copied is Ok,
{
    assert(c.step_holds(i));
    c.lemma_known(i);
}

/// The installer runs only on macOS, on the file of a new release that was
/// downloaded in full.
pub proof fn lemma_installer_runs_on_download(c: Course, i: int)
    requires
        c.valid(),
        0 <= i < c.actions.len(),
        c.actions[i] is RunInstaller,
    ensures
        c.os == OperatingSystem::MacOS,
        c.answers.downloaded(c.os, c.current_version),
        i > 0,
        c.actions[i - 1] matches UpdateAction::SavePackage { data, .. } && data
            == c.answers.body->Ok_0,
{
    assert(c.step_holds(i));
    c.lemma_known(i);
    assert(c.step_holds(i - 1));
    c.lemma_known(i - 1);
}

/// Whether a response came that says that the request was successful.
pub open spec fn came_well(response: Result<HttpStatus, String>) -> bool {
    response matches Ok(status) && 200 <= status.code <= 299
}

/// Whether file `k` of a release is the one for a system: the first that has
/// the name of the system's file.
pub open spec fn is_file_for(assets: Seq<ReleaseAsset>, os: OperatingSystem, k: int) -> bool {
    let name = match os {
        OperatingSystem::Linux => "nockpool-miner-linux-x86_64"@,
        OperatingSystem::MacOS => "nockpool-miner-macos-aarch64.pkg"@,
    };
    &&& 0 <= k < assets.len()
    &&& assets[k].name@ == name
    &&& forall|j: int| 0 <= j < k ==> (#[trigger] assets[j]).name@ != name
}

/// An update begins with a request for the latest release of this program.
pub proof fn lemma_update_asks_for_latest_release(c: Course)
    requires
        c.valid(),
        c.actions.len() > 0,
    ensures
        c.actions[0] matches UpdateAction::GetRelease { url, accept } && url@
            == "https://api.github.com/repos/swpsco/nockpool-miner/releases/latest"@ && accept@
            == "application/vnd.github.v3+json"@,
{
    assert(c.step_holds(0));
}

/// What is downloaded, on either system, is the file that the latest release
/// has for the system, and only where that release came and is not the running
/// version.
pub proof fn lemma_download_is_file_for_system(c: Course, i: int)
    requires
        c.valid(),
        0 <= i < c.actions.len(),
        c.actions[i] is Download,
    ensures
        came_well(c.answers.release_response),
        c.answers.release is Ok,
        c.answers.release->Ok_0.tag_name@ != c.current_version,
        exists|k: int| #[trigger]
            is_file_for(c.answers.release->Ok_0.assets@, c.os, k) && c.actions[i]
                == (UpdateAction::Download {
                url: c.answers.release->Ok_0.assets@[k].browser_download_url,
            }),
{
    assert(c.step_holds(i));
    c.lemma_known(i);
    let release = c.answers.release->Ok_0;
    let url = c.actions[i]->Download_url;
    let k = choose|k: int| #[trigger]
        first_named(release.assets@, asset_name(c.os), k) && url
            == release.assets@[k].browser_download_url;
    assert(is_file_for(release.assets@, c.os, k));
}

/// An update that reports that it updated, or that gives way to the new
/// version, had a new release come with a file for the system and had that file
/// come; right before its end it installed just that file. On Linux the
/// executable was first copied to the backup, then overwritten and made
/// executable; on macOS the file was saved as a package and the installer was
/// run on it.
pub proof fn lemma_successful_update_installed_the_file(c: Course)
    requires
        c.valid(),
        c.actions.len() > 0,
        c.actions.last() == UpdateAction::Finish(Ok(true)) || c.actions.last() is Exit,
    ensures
        came_well(c.answers.release_response),
        c.answers.release is Ok,
        c.answers.release->Ok_0.tag_name@ != c.current_version,
        came_well(c.answers.download_response),
        c.answers.body is Ok,
        c.restart <==> c.actions.last() is Exit,
        ({
            let k = c.actions.len() - if c.restart { 3int } else { 2int };
            &&& k >= 1
            &&& c.restart ==> c.actions[k + 1] is Restart && c.answers.restarted is Ok
            &&& match c.os {
                OperatingSystem::Linux => {
                    &&& k >= 2
                    &&& c.actions[k] == (UpdateAction::SetMode { mode: 0o755 })
                    &&& c.actions[k - 1] == (UpdateAction::WriteBinary {
                        data: c.answers.body->Ok_0,
                    })
                    &&& c.actions[k - 2] matches UpdateAction::CopyToBackup { extension }
                    &&& extension@ == "backup"@
                    &&& c.answers.copied is Ok && c.answers.written is Ok && c.answers.mode_set is Ok
                },
                OperatingSystem::MacOS => {
                    &&& c.actions[k] matches UpdateAction::RunInstaller { program, before, after }
                    &&& program@ == "sudo"@
                    &&& before@.len() == 2 && before@[0]@ == "installer"@ && before@[1]@ == "-pkg"@
                    &&& after@.len() == 2 && after@[0]@ == "-target"@ && after@[1]@ == "/"@
                    &&& c.actions[k - 1] matches UpdateAction::SavePackage { data, suffix }
                    &&& data == c.answers.body->Ok_0
                    &&& suffix@ == ".pkg"@
                    &&& c.answers.saved is Ok
                    &&& c.answers.installed matches Ok(exit)
                    &&& exit.success
                },
            }
        }),
{
    let n = c.actions.len() as int;
    c.lemma_known(n);
    assert(c.step_holds(n - 1));
    c.lemma_known(n - 1);
    assert(c.step_holds(n - 2));
    c.lemma_known(n - 2);
    assert(c.step_holds(n - 3));
    c.lemma_known(n - 3);
    if n >= 4 {
        assert(c.step_holds(n - 4));
        c.lemma_known(n - 4);
    }
    if n >= 5 {
        assert(c.step_holds(n - 5));
        c.lemma_known(n - 5);
    }
}

/// Whether `e` is the first thing that went wrong, in the order of the steps.
pub open spec fn went_wrong(c: Course, e: UpdateError) -> bool {
    let a = c.answers;
    match (a.release_response, a.release) {
        (Err(cause), _) => e == UpdateError::Outside(cause),
        (Ok(status), _) if !(200 <= status.code <= 299) => {
            e == UpdateError::ReleaseStatus(status.text)
        },
        (Ok(_), Err(cause)) => e == UpdateError::Outside(cause),
        (Ok(_), Ok(release)) => if forall|k: int| !is_file_for(release.assets@, c.os, k) {
            e matches UpdateError::NoAsset(name) && name@ == match c.os {
                OperatingSystem::Linux => "nockpool-miner-linux-x86_64"@,
                OperatingSystem::MacOS => "nockpool-miner-macos-aarch64.pkg"@,
            }
        } else {
            release.tag_name@ != c.current_version && download_went_wrong(c, e)
        },
    }
}

/// Whether `e` is the first thing that went wrong from the download on.
pub open spec fn download_went_wrong(c: Course, e: UpdateError) -> bool {
    let a = c.answers;
    match (a.download_response, a.body) {
        (Err(cause), _) => e == UpdateError::Outside(cause),
        (Ok(status), _) if !(200 <= status.code <= 299) => match c.os {
            OperatingSystem::Linux => e == UpdateError::BinaryStatus(status.text),
            OperatingSystem::MacOS => e == UpdateError::PackageStatus(status.text),
        },
        (Ok(_), Err(cause)) => e == UpdateError::Outside(cause),
        (Ok(_), Ok(_)) => match c.os {
            OperatingSystem::Linux => if a.backup_exists && a.removed is Err {
                e == UpdateError::Outside(a.removed->Err_0)
            } else if a.copied is Err {
                e == UpdateError::Outside(a.copied->Err_0)
            } else if a.written is Err {
                e == UpdateError::Outside(a.written->Err_0)
            } else if a.mode_set is Err {
                e == UpdateError::Outside(a.mode_set->Err_0)
            } else {
                c.restart && a.restarted is Err && e == UpdateError::Restart(a.restarted->Err_0)
            },
            OperatingSystem::MacOS => match (a.saved, a.installed) {
                (Err(cause), _) => e == UpdateError::Outside(cause),
                (Ok(_), Err(cause)) => e == UpdateError::Outside(cause),
                (Ok(_), Ok(exit)) => if exit.success {
                    c.restart && a.restarted is Err && e == UpdateError::Restart(
                        a.restarted->Err_0,
                    )
                } else {
                    e matches UpdateError::Installation(text) && text@ == lossy_utf8(exit.stderr@)
                },
            },
        },
    }
}

/// An update that fails reports the first thing that went wrong.
pub proof fn lemma_failed_update_reports_first_failure(c: Course, e: UpdateError)
    requires
        c.valid(),
        c.actions.len() > 0,
        c.actions.last() == UpdateAction::Finish(Err(e)),
    ensures
        went_wrong(c, e),
{
    let n = c.actions.len() as int;
    assert(c.step_holds(n - 1));
    c.lemma_known(n - 1);
    if c.answers.release is Ok {
        let assets = c.answers.release->Ok_0.assets@;
        let name = asset_name(c.os);
        if none_named(assets, name) {
            assert forall|k: int| !is_file_for(assets, c.os, k) by {}
        } else {
            lemma_some_is_first(assets, name);
            let k = choose|k: int| first_named(assets, name, k);
            assert(is_file_for(assets, c.os, k));
        }
    }
}

/// Where a name occurs, it occurs a first time.
proof fn lemma_some_is_first(assets: Seq<ReleaseAsset>, name: Seq<char>)
    requires
        !none_named(assets, name),
    ensures
        exists|k: int| first_named(assets, name, k),
    decreases assets.len(),
{
    let front = assets.drop_last();
    if none_named(front, name) {
        let k = assets.len() - 1;
        assert forall|j: int| 0 <= j < k implies (#[trigger] assets[j]).name@ != name by {
            assert(front[j] == assets[j]);
        }
        assert(first_named(assets, name, k));
    } else {
        lemma_some_is_first(front, name);
        let k = choose|k: int| first_named(front, name, k);
        assert forall|j: int| 0 <= j < k implies (#[trigger] assets[j]).name@ != name by {
            assert(front[j] == assets[j]);
        }
        assert(front[k] == assets[k]);
        assert(first_named(assets, name, k));
    }
}

/// An update that changes nothing had the running version come as the latest
/// release, with a file for the system.
pub proof fn lemma_nothing_changes_for_the_running_version(c: Course)
    requires
        c.valid(),
        c.actions.len() > 0,
        c.actions.last() == UpdateAction::Finish(Ok(false)),
    ensures
        came_well(c.answers.release_response),
        c.answers.release is Ok,
        c.answers.release->Ok_0.tag_name@ == c.current_version,
        forall|i: int|
            0 <= i < c.actions.len() ==> (#[trigger] c.actions[i]) is GetRelease || c.actions[i]
                is ReadRelease || c.actions[i] is Finish,
{
    let n = c.actions.len() as int;
    c.lemma_known(n);
    assert(c.step_holds(n - 1));
    c.lemma_known(n - 1);
    assert(c.step_holds(0));
    assert(c.step_holds(1));
}

/// Only an old backup is removed, and a backup is always the file with the
/// extension `backup`.
pub proof fn lemma_backups_have_one_extension(c: Course, i: int)
    requires
        c.valid(),
        0 <= i < c.actions.len(),
    ensures
        c.actions[i] matches UpdateAction::CheckBackup { extension } ==> extension@ == "backup"@,
        c.actions[i] matches UpdateAction::CopyToBackup { extension } ==> extension@ == "backup"@,
        c.actions[i] matches UpdateAction::RemoveBackup { extension } ==> extension@ == "backup"@
            && c.answers.backup_exists,
{
    assert(c.step_holds(i));
    c.lemma_known(i);
}

/// Each known system is told by its name, and no other name is taken for one.
pub proof fn lemma_systems_by_name(os: Seq<char>)
    ensures
        system_named(os) == Some(OperatingSystem::Linux) <==> os == "linux"@,
        system_named(os) == Some(OperatingSystem::MacOS) <==> os == "macos"@,
{
    reveal_strlit("linux");
    reveal_strlit("macos");
    assert("linux"@[0] != "macos"@[0]);
}

/// A release is an update if and only if it is not the running version; what is
/// downloaded for it is the file for the system; and only a release without such
/// a file cannot be compared.
pub proof fn lemma_release_compares_with_running_version(
    os: OperatingSystem,
    current_version: Seq<char>,
    release: GitHubRelease,
    r: Result<UpdateInfo, UpdateError>,
)
    requires
        compares(os, current_version, release, r),
    ensures
        match r {
            Ok(info) => {
                &&& info.needs_update <==> release.tag_name@ != current_version
                &&& info.current_version@ == current_version
                &&& info.latest_version@ == release.tag_name@
                &&& exists|k: int| #[trigger]
                    is_file_for(release.assets@, os, k) && info.download_url
                        == release.assets@[k].browser_download_url && info.asset_name
                        == release.assets@[k].name
            },
            Err(e) => {
                &&& forall|k: int| !is_file_for(release.assets@, os, k)
                &&& e.message_text() == "No compatible asset found for "@ + match os {
                    OperatingSystem::Linux => "nockpool-miner-linux-x86_64"@,
                    OperatingSystem::MacOS => "nockpool-miner-macos-aarch64.pkg"@,
                }
            },
        },
{
    if let Ok(info) = r {
        let k = choose|k: int| #[trigger]
            first_named(release.assets@, asset_name(os), k) && info.download_url
                == release.assets@[k].browser_download_url && info.asset_name
                == release.assets@[k].name;
        assert(is_file_for(release.assets@, os, k));
    }
}

/// The new process gets every argument of this one but the first, in order.
pub proof fn lemma_arguments_are_handed_on(args: Seq<String>, i: int)
    requires
        1 <= i < args.len(),
    ensures
        without_program(args).len() == args.len() - 1,
        without_program(args)[i - 1] == args[i],
{
}

/// What is shown of each error: what failed, and then the text that came with
/// it.
pub proof fn lemma_update_messages(text: String)
    ensures
        UpdateError::Outside(text).message_text() == text@,
        UpdateError::UnsupportedOs(text).message_text() == "Unsupported operating system: "@ + text@,
        UpdateError::ReleaseStatus(text).message_text() == "Failed to fetch release info: HTTP "@
            + text@,
        UpdateError::NoAsset(text).message_text() == "No compatible asset found for "@ + text@,
        UpdateError::BinaryStatus(text).message_text() == "Failed to download binary: HTTP "@
            + text@,
        UpdateError::PackageStatus(text).message_text() == "Failed to download package: HTTP "@
            + text@,
        UpdateError::Installation(text).message_text() == "Package installation failed: "@ + text@,
        UpdateError::Restart(text).message_text() == "Failed to restart process: "@ + text@,
{
}

/// Whether a reply answers what an update waits for.
pub open spec fn awaited(stage: UpdateStage, reply: UpdateReply) -> bool {
    match stage {
        UpdateStage::Start => reply is Begin,
        UpdateStage::AwaitingRelease | UpdateStage::AwaitingDownload => reply is Responded,
        UpdateStage::ReadingRelease => reply is ReleaseRead,
        UpdateStage::ReadingDownload => reply is BodyRead,
        UpdateStage::CheckingBackup { .. } => reply is BackupExists,
        UpdateStage::Installing => reply is Installed,
        _ => reply is Done,
    }
}

/// What an update does not wait for changes nothing.
pub proof fn lemma_unawaited_replies_change_nothing(
    os: OperatingSystem,
    restart: bool,
    current_version: Seq<char>,
    stage: UpdateStage,
    reply: UpdateReply,
    next: UpdateStage,
    action: UpdateAction,
)
    requires
        update_step(os, restart, current_version, stage, reply, next, action),
        !awaited(stage, reply),
    ensures
        next == stage,
        action is Ignore,
{
}

} // verus!
