//! The host store: what it holds, where it lies, and the order in which its files are replaced.
use vstd::prelude::*;

use crate::model::{alias_owner, alias_taken, find_alias_index, models, HostProfile, ProfileModel};
use crate::text::{
    ascii_lower, copy_optional, decimal, decimal_string, digit_char, optional_text,
    same_ignoring_case, trimmed,
};

verus! {

/// The layout of the store that this program writes.
pub const STORE_VERSION: u32 = 2;

#[derive(Debug)]
pub struct HostStore {
    pub version: u32,
    pub preferred_locale: Option<String>,
    pub hosts: Vec<HostProfile>,
    /// Why the store may not be written, if it may not.
    pub write_blocked: Option<String>,
}

#[verifier::ext_equal]
pub struct StoreModel {
    pub version: u32,
    pub preferred_locale: Option<Seq<char>>,
    pub hosts: Seq<ProfileModel>,
    pub write_blocked: Option<Seq<char>>,
}

impl View for HostStore {
    type V = StoreModel;

    open spec fn view(&self) -> StoreModel {
        StoreModel {
            version: self.version,
            preferred_locale: optional_text(self.preferred_locale),
            hosts: models(self.hosts@),
            write_blocked: optional_text(self.write_blocked),
        }
    }
}

impl StoreModel {
    /// A store without hosts.
    pub open spec fn empty() -> StoreModel {
        StoreModel {
            version: STORE_VERSION,
            preferred_locale: None,
            hosts: Seq::empty(),
            write_blocked: None,
        }
    }
}

/// A copy of a list of hosts.
pub fn copy_hosts(hosts: &[HostProfile]) -> (r: Vec<HostProfile>)
    ensures
        models(r@) == models(hosts@),
{
    let mut out: Vec<HostProfile> = Vec::new();
    let mut i: usize = 0;
    while i < hosts.len()
        invariant
            i <= hosts@.len(),
            models(out@) == models(hosts@).take(i as int),
        decreases hosts@.len() - i,
    {
        let ghost before = models(out@);
        out.push(hosts[i].clone());
        assert(models(out@) =~= before.push(hosts@[i as int]@));
        assert(models(hosts@).take(i + 1) =~= models(hosts@).take(i as int).push(
            hosts@[i as int]@,
        ));
        i = i + 1;
    }
    assert(models(hosts@).take(i as int) =~= models(hosts@));
    out
}

impl Default for HostStore {
    fn default() -> (r: Self)
        ensures
            r@ == StoreModel::empty(),
    {
        let r = HostStore {
            version: STORE_VERSION,
            preferred_locale: None,
            hosts: Vec::new(),
            write_blocked: None,
        };
        assert(r@ =~= StoreModel::empty());
        r
    }
}

impl Clone for HostStore {
    fn clone(&self) -> (r: Self)
        ensures
            r@ == self@,
    {
        HostStore {
            version: self.version,
            preferred_locale: copy_optional(&self.preferred_locale),
            hosts: copy_hosts(self.hosts.as_slice()),
            write_blocked: copy_optional(&self.write_blocked),
        }
    }
}

/// The name with this number among the names that stand for no language.
pub open spec fn neutral_name(number: nat) -> Seq<char> {
    "host-"@ + decimal(number)
}

proof fn lemma_decimal_injective(a: nat, b: nat)
    requires
        decimal(a) == decimal(b),
    ensures
        a == b,
    decreases a,
{
    assert(forall|x: int, y: int|
        0 <= x < 10 && 0 <= y < 10 && #[trigger] digit_char(x) == #[trigger] digit_char(y) ==> x
            == y);
    lemma_decimal_nonempty(a / 10);
    lemma_decimal_nonempty(b / 10);
    assert(decimal(a).last() == digit_char((a % 10) as int));
    assert(decimal(b).last() == digit_char((b % 10) as int));
    if a < 10 {
        if b >= 10 {
            assert(decimal(b).len() >= 2);
            assert(decimal(a).len() == 1);
        }
    } else if b < 10 {
        assert(decimal(a).len() >= 2);
        assert(decimal(b).len() == 1);
    } else {
        assert(decimal(a).drop_last() =~= decimal(a / 10));
        assert(decimal(b).drop_last() =~= decimal(b / 10));
        lemma_decimal_injective(a / 10, b / 10);
    }
}

proof fn lemma_decimal_nonempty(n: nat)
    ensures
        decimal(n).len() >= 1,
    decreases n,
{
    if n >= 10 {
        lemma_decimal_nonempty(n / 10);
    }
}

proof fn lemma_decimal_digits(n: nat)
    ensures
        forall|i: int| 0 <= i < decimal(n).len() ==> '0' <= #[trigger] decimal(n)[i] <= '9',
    decreases n,
{
    let digits = decimal(n);
    if n >= 10 {
        lemma_decimal_digits(n / 10);
        let front = decimal(n / 10);
        assert forall|i: int| 0 <= i < digits.len() implies '0' <= #[trigger] digits[i] <= '9' by {
            if i < front.len() {
                assert(digits[i] == front[i]);
            } else {
                assert(digits[i] == digit_char((n % 10) as int));
            }
        }
    } else {
        assert(digits =~= seq![digit_char(n as int)]);
    }
}

proof fn lemma_neutral_names(a: nat, b: nat, alias: Seq<char>)
    requires
        same_ignoring_case(alias, neutral_name(a)),
        same_ignoring_case(alias, neutral_name(b)),
    ensures
        a == b,
{
    reveal_strlit("host-");
    lemma_neutral_lower(a);
    lemma_neutral_lower(b);
    assert(neutral_name(a).skip(5) =~= decimal(a));
    assert(neutral_name(b).skip(5) =~= decimal(b));
    lemma_decimal_injective(a, b);
}

/// The name is in lower case already, and has nothing around it.
proof fn lemma_neutral_lower(n: nat)
    ensures
        ascii_lower(neutral_name(n)) == neutral_name(n),
        trimmed(neutral_name(n)) == neutral_name(n),
{
    reveal_strlit("host-");
    lemma_decimal_digits(n);
    lemma_decimal_nonempty(n);
    let name = neutral_name(n);
    assert forall|i: int| 0 <= i < name.len() implies ascii_lower(name)[i] == name[i] by {
        if i >= 5 {
            assert(name[i] == decimal(n)[i - 5]);
        }
    }
    assert(ascii_lower(name) =~= name);
    assert(name[0] == 'h');
    assert(name.last() == decimal(n)[decimal(n).len() - 1]);
    let class = |c: char| crate::text::is_whitespace_char(c);
    crate::text::lemma_trim_start(name, class, 0);
    assert(name.skip(0) =~= name);
    crate::text::lemma_trim_end(name, class, name.len() as int);
    assert(name.take(name.len() as int) =~= name);
}

/// As many names that are taken need as many hosts.
proof fn lemma_names_need_hosts(hosts: Seq<ProfileModel>, n: nat)
    requires
        forall|k: nat| 1 <= k <= n ==> #[trigger] name_taken(hosts, k),
    ensures
        n <= hosts.len(),
    decreases n,
{
    if n > 0 {
        assert(name_taken(hosts, n));
        let at = choose|i: int|
            0 <= i < hosts.len() && same_ignoring_case(
                (#[trigger] hosts[i]).alias,
                neutral_name(n),
            );
        let rest = hosts.remove(at);
        assert forall|k: nat| 1 <= k <= n - 1 implies #[trigger] name_taken(rest, k) by {
            assert(name_taken(hosts, k));
            let i = choose|i: int|
                0 <= i < hosts.len() && same_ignoring_case(
                    (#[trigger] hosts[i]).alias,
                    neutral_name(k),
                );
            if i == at {
                lemma_neutral_names(k, n, hosts[at].alias);
            }
            let j = if i < at {
                i
            } else {
                i - 1
            };
            assert(rest[j] == hosts[i]);
        }
        lemma_names_need_hosts(rest, (n - 1) as nat);
    }
}

/// Some host has the name with this number.
pub open spec fn name_taken(hosts: Seq<ProfileModel>, number: nat) -> bool {
    exists|i: int|
        0 <= i < hosts.len() && same_ignoring_case(
            (#[trigger] hosts[i]).alias,
            neutral_name(number),
        )
}

impl HostStore {
    /// An empty store that must not be written.
    pub fn blocked(reason: &str) -> (r: Self)
        ensures
            r@ == (StoreModel { write_blocked: Some(reason@), ..StoreModel::empty() }),
    {
        let mut store = HostStore::default();
        store.write_blocked = Some(reason.to_owned());
        store
    }

    pub fn find_alias(&self, alias: &str) -> (r: Option<&HostProfile>)
        ensures
            match r {
                Some(host) => exists|at: int| #[trigger]
                    alias_owner(self@.hosts, trimmed(alias@), at) && *host == self.hosts@[at],
                None => !alias_taken(self@.hosts, trimmed(alias@)),
            },
    {
        match find_alias_index(self.hosts.as_slice(), alias) {
            Some(at) => {
                assert(alias_owner(self@.hosts, trimmed(alias@), at as int));
                Some(&self.hosts[at])
            },
            None => None,
        }
    }

    /// The first numbered name that no host has.
    pub fn next_neutral_alias(&self) -> (r: String)
        requires
            self@.hosts.len() < u32::MAX,
        ensures
            exists|n: nat|
                n >= 1 && r@ == neutral_name(n) && !name_taken(self@.hosts, n) && forall|k: nat|
                    1 <= k < n ==> #[trigger] name_taken(self@.hosts, k),
    {
        let mut number: u32 = 1;
        loop
            invariant
                self@.hosts.len() < u32::MAX,
                1 <= number <= self@.hosts.len() + 1,
                forall|k: nat| 1 <= k < number ==> #[trigger] name_taken(self@.hosts, k),
            decreases self@.hosts.len() + 1 - number,
        {
            let mut alias = "host-".to_owned();
            alias.append(decimal_string(number as u64).as_str());
            proof {
                lemma_neutral_lower(number as nat);
            }
            match self.find_alias(alias.as_str()) {
                Some(_) => {
                    assert(name_taken(self@.hosts, number as nat)) by {
                        let at = choose|at: int| alias_owner(self@.hosts, trimmed(alias@), at);
                        assert(same_ignoring_case(
                            self@.hosts[at].alias,
                            neutral_name(number as nat),
                        ));
                    }
                },
                None => {
                    assert(!name_taken(self@.hosts, number as nat)) by {
                        if name_taken(self@.hosts, number as nat) {
                            lemma_taken(self@.hosts, alias@, number as nat);
                        }
                    }
                    return alias;
                },
            }
            proof {
                assert forall|k: nat| 1 <= k <= number implies #[trigger] name_taken(
                    self@.hosts,
                    k,
                ) by {
                    if k < number {
                    }
                }
                lemma_names_need_hosts(self@.hosts, number as nat);
            }
            number = number + 1;
        }
    }

    /// What is written when the store is saved.
    pub fn to_save(&self) -> (r: Result<HostStore, StorageError>)
        ensures
            match (self@.write_blocked, r) {
                (Some(reason), Err(StorageError::WriteBlocked(text))) => text@ == reason,
                (None, Ok(store)) => store@ == (StoreModel { version: STORE_VERSION, ..self@ }),
                _ => false,
            },
    {
        if let Some(reason) = &self.write_blocked {
            return Err(StorageError::WriteBlocked(reason.clone()));
        }
        let mut store = self.clone();
        store.version = STORE_VERSION;
        Ok(store)
    }

    /// What was read counts as written by this version, and may be written again.
    pub fn from_read(preferred_locale: Option<String>, hosts: Vec<HostProfile>) -> (r: Self)
        ensures
            r@ == (StoreModel {
                version: STORE_VERSION,
                preferred_locale: optional_text(preferred_locale),
                hosts: models(hosts@),
                write_blocked: None,
            }),
    {
        HostStore { version: STORE_VERSION, preferred_locale, hosts, write_blocked: None }
    }
}

proof fn lemma_taken(hosts: Seq<ProfileModel>, alias: Seq<char>, number: nat)
    requires
        alias == neutral_name(number),
        name_taken(hosts, number),
    ensures
        alias_taken(hosts, alias),
{
    lemma_neutral_lower(number);
    let i = choose|i: int|
        0 <= i < hosts.len() && same_ignoring_case((#[trigger] hosts[i]).alias, alias);
    assert(same_ignoring_case(hosts[i].alias, trimmed(alias)));
}

/// Why the store could not be read or written.
#[derive(Debug, PartialEq, Eq)]
pub enum StorageError {
    NoDataDirectory,
    Io(String),
    Json(String),
    BackupRecoveryRequired(String),
    WriteBlocked(String),
    RecoveryFailed { write: String, recovery: String },
}

impl StorageError {
    pub open spec fn said(self) -> Seq<char> {
        match self {
            StorageError::NoDataDirectory => "no application data directory is available"@,
            StorageError::Io(text) => "file operation failed: "@ + text@,
            StorageError::Json(text) => "stored host data is invalid: "@ + text@,
            StorageError::BackupRecoveryRequired(path) =>
            "host storage primary is missing; recovery is available from "@ + path@,
            StorageError::WriteBlocked(reason) =>
            "host storage writes are blocked because loading failed: "@ + reason@,
            StorageError::RecoveryFailed { write, recovery } => "host storage update failed: "@
                + write@ + "; backup recovery also failed: "@ + recovery@,
        }
    }

    pub fn text(&self) -> (r: String)
        ensures
            r@ == self.said(),
    {
        match self {
            StorageError::NoDataDirectory => {
                "no application data directory is available".to_owned()
            },
            StorageError::Io(text) => {
                let mut out = "file operation failed: ".to_owned();
                out.append(text.as_str());
                out
            },
            StorageError::Json(text) => {
                let mut out = "stored host data is invalid: ".to_owned();
                out.append(text.as_str());
                out
            },
            StorageError::BackupRecoveryRequired(path) => {
                let mut out = "host storage primary is missing; recovery is available from ".to_owned();
                out.append(path.as_str());
                out
            },
            StorageError::WriteBlocked(reason) => {
                let mut out = "host storage writes are blocked because loading failed: ".to_owned();
                out.append(reason.as_str());
                out
            },
            StorageError::RecoveryFailed { write, recovery } => {
                let mut out = "host storage update failed: ".to_owned();
                out.append(write.as_str());
                out.append("; backup recovery also failed: ");
                out.append(recovery.as_str());
                out
            },
        }
    }
}

/// A directory, as a base and the names below it.
#[derive(Debug, PartialEq, Eq)]
pub struct Location {
    pub base: String,
    pub below: Option<&'static str>,
}

/// Where the store lies: in the directory that was set for it, else in a directory of the
/// program below the user's local application data.
pub fn data_directory(configured: Option<&str>, local: Option<&str>) -> (r: Result<
    Location,
    StorageError,
>)
    ensures
        match (configured, local) {
            (Some(path), _) => r matches Ok(found) && found.base@ == path@ && found.below is None,
            (None, Some(path)) => r matches Ok(found) && found.base@ == path@ && found.below is Some
                && found.below->0@ == "CodexHosts"@,
            (None, None) => r matches Err(error) && error == StorageError::NoDataDirectory,
        },
{
    if let Some(path) = configured {
        return Ok(Location { base: path.to_owned(), below: None });
    }
    if let Some(path) = local {
        return Ok(Location { base: path.to_owned(), below: Some("CodexHosts") });
    }
    Err(StorageError::NoDataDirectory)
}

/// Whether a store of an earlier program is taken over: only when no directory was set for the
/// store and there is such a store.
pub fn takes_over_legacy_store(configured: bool, legacy_exists: bool) -> (r: bool)
    ensures
        r == (!configured && legacy_exists),
{
    !configured && legacy_exists
}

/// What is known of a file.
#[derive(Debug, Clone, Copy, PartialEq, Eq, Structural)]
pub enum FileState {
    Missing,
    Readable,
    Damaged,
}

/// Where a store comes from.
#[derive(Debug, Clone, Copy, PartialEq, Eq, Structural)]
pub enum LoadChoice {
    Primary,
    /// The backup, which then takes the place of the primary file.
    RestoreBackup,
    /// Neither file is there: an earlier program's store, or an empty one.
    Fresh,
    /// What is wrong with the primary file is reported.
    PrimaryFault,
    /// What is wrong with the backup is reported.
    BackupFault,
    /// A backup is there, and only the user may decide to go back to it.
    RecoveryRequired,
}

pub open spec fn strict_choice(primary: FileState, backup_exists: bool) -> LoadChoice {
    match primary {
        FileState::Readable => LoadChoice::Primary,
        FileState::Damaged => LoadChoice::PrimaryFault,
        FileState::Missing => if backup_exists {
            LoadChoice::RecoveryRequired
        } else {
            LoadChoice::Fresh
        },
    }
}

pub open spec fn recovering_choice(primary: FileState, backup: FileState) -> LoadChoice {
    match (primary, backup) {
        (FileState::Readable, _) => LoadChoice::Primary,
        (_, FileState::Readable) => LoadChoice::RestoreBackup,
        (FileState::Damaged, _) => LoadChoice::PrimaryFault,
        (FileState::Missing, FileState::Damaged) => LoadChoice::BackupFault,
        (FileState::Missing, FileState::Missing) => LoadChoice::Fresh,
    }
}

/// Loading that never repairs anything by itself.
pub fn load_primary_strict(primary: FileState, backup_exists: bool) -> (r: LoadChoice)
    ensures
        r == strict_choice(primary, backup_exists),
{
    match primary {
        FileState::Readable => LoadChoice::Primary,
        FileState::Damaged => LoadChoice::PrimaryFault,
        FileState::Missing => {
            if backup_exists {
                LoadChoice::RecoveryRequired
            } else {
                LoadChoice::Fresh
            }
        },
    }
}

/// Loading that goes back to the backup when the primary file is damaged or missing.
pub fn load_primary_or_backup(primary: FileState, backup: FileState) -> (r: LoadChoice)
    ensures
        r == recovering_choice(primary, backup),
{
    match primary {
        FileState::Readable => LoadChoice::Primary,
        FileState::Damaged => {
            if backup == FileState::Readable {
                LoadChoice::RestoreBackup
            } else {
                LoadChoice::PrimaryFault
            }
        },
        FileState::Missing => match backup {
            FileState::Readable => LoadChoice::RestoreBackup,
            FileState::Damaged => LoadChoice::BackupFault,
            FileState::Missing => LoadChoice::Fresh,
        },
    }
}

/// Strict loading never changes a file, and where it succeeds the recovering one agrees with it.
pub proof fn recovery_only_adds(primary: FileState, backup: FileState)
    ensures
        primary == FileState::Readable ==> strict_choice(primary, backup != FileState::Missing)
            == recovering_choice(primary, backup),
        strict_choice(primary, backup != FileState::Missing) != LoadChoice::RestoreBackup,
        primary == FileState::Missing && backup == FileState::Missing ==> strict_choice(
            primary,
            false,
        ) == recovering_choice(primary, backup),
{
}

/// The files of a store, by their contents.
pub struct Disk {
    pub primary: Option<Seq<u8>>,
    pub backup: Option<Seq<u8>>,
    /// The new contents on their way to the primary file.
    pub temporary: Option<Seq<u8>>,
    /// A copy of the primary file on its way to the backup.
    pub copied: Option<Seq<u8>>,
    /// A copy of the backup on its way to the primary file.
    pub recovery: Option<Seq<u8>>,
    /// A damaged primary file that was put aside.
    pub preserved: Option<Seq<u8>>,
}

/// The next thing to do while the backup is renewed from the primary file.
#[derive(Debug, Clone, Copy, PartialEq, Eq, Structural)]
pub enum RefreshStep {
    CopyPrimary,
    TestBackup,
    DropBackup,
    PlaceCopy,
    DropCopy,
    Renewed,
    Failed,
}

/// What follows when the step went well, or its question was answered with yes, or not.
pub open spec fn refresh_after(step: RefreshStep, ok: bool) -> RefreshStep {
    match step {
        RefreshStep::CopyPrimary => if ok {
            RefreshStep::TestBackup
        } else {
            RefreshStep::DropCopy
        },
        RefreshStep::TestBackup => if ok {
            RefreshStep::DropBackup
        } else {
            RefreshStep::PlaceCopy
        },
        RefreshStep::DropBackup => if ok {
            RefreshStep::PlaceCopy
        } else {
            RefreshStep::DropCopy
        },
        RefreshStep::PlaceCopy => if ok {
            RefreshStep::Renewed
        } else {
            RefreshStep::DropCopy
        },
        RefreshStep::DropCopy => RefreshStep::Failed,
        RefreshStep::Renewed => RefreshStep::Renewed,
        RefreshStep::Failed => RefreshStep::Failed,
    }
}

impl RefreshStep {
    pub fn first() -> (r: Self)
        ensures
            r == RefreshStep::CopyPrimary,
    {
        RefreshStep::CopyPrimary
    }

    pub fn next(self, ok: bool) -> (r: Self)
        ensures
            r == refresh_after(self, ok),
    {
        match self {
            Self::CopyPrimary => if ok {
                Self::TestBackup
            } else {
                Self::DropCopy
            },
            Self::TestBackup => if ok {
                Self::DropBackup
            } else {
                Self::PlaceCopy
            },
            Self::DropBackup => if ok {
                Self::PlaceCopy
            } else {
                Self::DropCopy
            },
            Self::PlaceCopy => if ok {
                Self::Renewed
            } else {
                Self::DropCopy
            },
            Self::DropCopy => Self::Failed,
            Self::Renewed => Self::Renewed,
            Self::Failed => Self::Failed,
        }
    }
}

/// What a step does to the files. A step that fails leaves every file but the copy as it was.
pub open spec fn refresh_moves(step: RefreshStep, ok: bool, before: Disk, after: Disk) -> bool {
    match step {
        RefreshStep::CopyPrimary => after == (Disk { copied: after.copied, ..before }) && (ok
            ==> before.primary is Some && after.copied == before.primary),
        RefreshStep::TestBackup => after == before && ok == (before.backup is Some),
        RefreshStep::DropBackup => after == if ok {
            Disk { backup: None, ..before }
        } else {
            before
        },
        RefreshStep::PlaceCopy => after == if ok {
            Disk { backup: before.copied, copied: None, ..before }
        } else {
            before
        },
        RefreshStep::DropCopy => after == (Disk { copied: after.copied, ..before }),
        _ => after == before,
    }
}

/// What holds before each step of a renewal of the backup.
pub open spec fn refresh_holds(step: RefreshStep, disk: Disk, kept: Seq<u8>) -> bool {
    &&& disk.primary == Some(kept)
    &&& match step {
        RefreshStep::TestBackup | RefreshStep::DropBackup | RefreshStep::PlaceCopy => disk.copied
            == Some(kept),
        RefreshStep::Renewed => disk.backup == Some(kept),
        _ => true,
    }
}

/// While the backup is renewed the primary file stays what it is, and in the end both agree.
pub proof fn renewing_the_backup_is_safe(
    step: RefreshStep,
    ok: bool,
    before: Disk,
    after: Disk,
    kept: Seq<u8>,
)
    requires
        refresh_holds(step, before, kept),
        refresh_moves(step, ok, before, after),
    ensures
        refresh_holds(refresh_after(step, ok), after, kept),
        after.primary == Some(kept),
        refresh_after(step, ok) == RefreshStep::Renewed ==> after.backup == Some(kept),
{
}

/// The next thing to do while the primary file is restored from the backup.
#[derive(Debug, Clone, Copy, PartialEq, Eq, Structural)]
pub enum RestoreStep {
    /// Is a damaged primary file in the way?
    TestPrimary,
    CopyBackup { keep: bool },
    PreservePrimary,
    PlaceRecovery { keep: bool },
    /// Is the preserved file there and the primary place free?
    TestPreserved,
    PutBack,
    DropRecovery { lost: bool },
    Restored,
    Failed,
    /// The primary file could not even be put back.
    FailedTwice,
}

pub open spec fn restore_after(step: RestoreStep, ok: bool) -> RestoreStep {
    match step {
        RestoreStep::TestPrimary => RestoreStep::CopyBackup { keep: ok },
        RestoreStep::CopyBackup { keep } => if !ok {
            RestoreStep::DropRecovery { lost: false }
        } else if keep {
            RestoreStep::PreservePrimary
        } else {
            RestoreStep::PlaceRecovery { keep: false }
        },
        RestoreStep::PreservePrimary => if ok {
            RestoreStep::PlaceRecovery { keep: true }
        } else {
            RestoreStep::DropRecovery { lost: false }
        },
        RestoreStep::PlaceRecovery { keep } => if ok {
            RestoreStep::Restored
        } else if keep {
            RestoreStep::TestPreserved
        } else {
            RestoreStep::DropRecovery { lost: false }
        },
        RestoreStep::TestPreserved => if ok {
            RestoreStep::PutBack
        } else {
            RestoreStep::DropRecovery { lost: false }
        },
        RestoreStep::PutBack => RestoreStep::DropRecovery { lost: !ok },
        RestoreStep::DropRecovery { lost } => if lost {
            RestoreStep::FailedTwice
        } else {
            RestoreStep::Failed
        },
        RestoreStep::Restored => RestoreStep::Restored,
        RestoreStep::Failed => RestoreStep::Failed,
        RestoreStep::FailedTwice => RestoreStep::FailedTwice,
    }
}

impl RestoreStep {
    pub fn first() -> (r: Self)
        ensures
            r == RestoreStep::TestPrimary,
    {
        RestoreStep::TestPrimary
    }

    pub fn next(self, ok: bool) -> (r: Self)
        ensures
            r == restore_after(self, ok),
    {
        match self {
            Self::TestPrimary => Self::CopyBackup { keep: ok },
            Self::CopyBackup { keep } => if !ok {
                Self::DropRecovery { lost: false }
            } else if keep {
                Self::PreservePrimary
            } else {
                Self::PlaceRecovery { keep: false }
            },
            Self::PreservePrimary => if ok {
                Self::PlaceRecovery { keep: true }
            } else {
                Self::DropRecovery { lost: false }
            },
            Self::PlaceRecovery { keep } => if ok {
                Self::Restored
            } else if keep {
                Self::TestPreserved
            } else {
                Self::DropRecovery { lost: false }
            },
            Self::TestPreserved => if ok {
                Self::PutBack
            } else {
                Self::DropRecovery { lost: false }
            },
            Self::PutBack => Self::DropRecovery { lost: !ok },
            Self::DropRecovery { lost } => if lost {
                Self::FailedTwice
            } else {
                Self::Failed
            },
            Self::Restored => Self::Restored,
            Self::Failed => Self::Failed,
            Self::FailedTwice => Self::FailedTwice,
        }
    }
}

/// What a step does to the files. A step that fails leaves every file but the recovery copy as
/// it was.
pub open spec fn restore_moves(step: RestoreStep, ok: bool, before: Disk, after: Disk) -> bool {
    match step {
        RestoreStep::TestPrimary => after == before && ok == (before.primary is Some),
        RestoreStep::CopyBackup { .. } => after == (Disk { recovery: after.recovery, ..before })
            && (ok ==> before.backup is Some && after.recovery == before.backup),
        RestoreStep::PreservePrimary => after == if ok {
            Disk { preserved: before.primary, primary: None, ..before }
        } else {
            before
        },
        RestoreStep::PlaceRecovery { .. } => after == if ok {
            Disk { primary: before.recovery, recovery: None, ..before }
        } else {
            before
        },
        RestoreStep::TestPreserved => after == before && ok == (before.preserved is Some
            && before.primary is None),
        RestoreStep::PutBack => after == if ok {
            Disk { primary: before.preserved, preserved: None, ..before }
        } else {
            before
        },
        RestoreStep::DropRecovery { .. } => after == (Disk { recovery: after.recovery, ..before }),
        _ => after == before,
    }
}

/// What holds before each step: the backup is what it was, and a primary file that was in the way
/// still exists in one place or the other.
pub open spec fn restore_holds(
    step: RestoreStep,
    disk: Disk,
    good: Seq<u8>,
    damaged: Option<Seq<u8>>,
) -> bool {
    &&& disk.backup == Some(good)
    &&& match step {
        RestoreStep::TestPrimary => disk.primary == damaged,
        RestoreStep::CopyBackup { keep } => disk.primary == damaged && keep == (damaged is Some),
        RestoreStep::PreservePrimary => disk.primary == damaged && damaged is Some && disk.recovery
            == Some(good),
        RestoreStep::PlaceRecovery { keep } => disk.recovery == Some(good) && disk.primary is None
            && keep == (damaged is Some) && (keep ==> disk.preserved == damaged),
        RestoreStep::TestPreserved | RestoreStep::PutBack => disk.primary is None && damaged is Some
            && disk.preserved == damaged,
        RestoreStep::Restored => disk.primary == Some(good) && (damaged is Some ==> disk.preserved
            == damaged),
        _ => damaged is Some ==> disk.primary == damaged || disk.preserved == damaged,
    }
}

/// Restoring never loses anything: at every step the backup is untouched, and a damaged primary
/// file exists where it was or among the preserved ones. When it succeeds the primary file holds
/// what the backup holds.
pub proof fn restoring_loses_nothing(
    step: RestoreStep,
    ok: bool,
    before: Disk,
    after: Disk,
    good: Seq<u8>,
    damaged: Option<Seq<u8>>,
)
    requires
        restore_holds(step, before, good, damaged),
        restore_moves(step, ok, before, after),
    ensures
        restore_holds(restore_after(step, ok), after, good, damaged),
        after.backup == Some(good),
        damaged is Some ==> after.primary == damaged || after.preserved == damaged,
        restore_after(step, ok) == RestoreStep::Restored ==> after.primary == Some(good),
{
}

/// The next thing to do while the store is saved.
#[derive(Debug, Clone, Copy, PartialEq, Eq, Structural)]
pub enum SaveStep {
    MakeDirectory,
    WriteTemporary,
    TestPrimary,
    /// Can the primary file be read as a store?
    ReadPrimary,
    /// Renew the backup from the primary file.
    RefreshBackup,
    DropPrimary,
    PlaceTemporary,
    TestPrimaryAgain,
    TestBackup,
    /// Restore the primary file from the backup.
    RestoreBackup,
    DropTemporary { lost: bool },
    Saved,
    Failed,
    /// Neither could the new store be put in place nor the old one be restored.
    FailedTwice,
}

pub open spec fn save_after(step: SaveStep, ok: bool) -> SaveStep {
    let fail = SaveStep::DropTemporary { lost: false };
    match step {
        SaveStep::MakeDirectory => if ok {
            SaveStep::WriteTemporary
        } else {
            SaveStep::Failed
        },
        SaveStep::WriteTemporary => if ok {
            SaveStep::TestPrimary
        } else {
            fail
        },
        SaveStep::TestPrimary => if ok {
            SaveStep::ReadPrimary
        } else {
            SaveStep::PlaceTemporary
        },
        SaveStep::ReadPrimary => if ok {
            SaveStep::RefreshBackup
        } else {
            SaveStep::DropPrimary
        },
        SaveStep::RefreshBackup => if ok {
            SaveStep::DropPrimary
        } else {
            fail
        },
        SaveStep::DropPrimary => if ok {
            SaveStep::PlaceTemporary
        } else {
            fail
        },
        SaveStep::PlaceTemporary => if ok {
            SaveStep::Saved
        } else {
            SaveStep::TestPrimaryAgain
        },
        SaveStep::TestPrimaryAgain => if ok {
            fail
        } else {
            SaveStep::TestBackup
        },
        SaveStep::TestBackup => if ok {
            SaveStep::RestoreBackup
        } else {
            fail
        },
        SaveStep::RestoreBackup => SaveStep::DropTemporary { lost: !ok },
        SaveStep::DropTemporary { lost } => if lost {
            SaveStep::FailedTwice
        } else {
            SaveStep::Failed
        },
        SaveStep::Saved => SaveStep::Saved,
        SaveStep::Failed => SaveStep::Failed,
        SaveStep::FailedTwice => SaveStep::FailedTwice,
    }
}

impl SaveStep {
    pub fn first() -> (r: Self)
        ensures
            r == SaveStep::MakeDirectory,
    {
        SaveStep::MakeDirectory
    }

    pub fn next(self, ok: bool) -> (r: Self)
        ensures
            r == save_after(self, ok),
    {
        let fail = Self::DropTemporary { lost: false };
        match self {
            Self::MakeDirectory => if ok {
                Self::WriteTemporary
            } else {
                Self::Failed
            },
            Self::WriteTemporary => if ok {
                Self::TestPrimary
            } else {
                fail
            },
            Self::TestPrimary => if ok {
                Self::ReadPrimary
            } else {
                Self::PlaceTemporary
            },
            Self::ReadPrimary => if ok {
                Self::RefreshBackup
            } else {
                Self::DropPrimary
            },
            Self::RefreshBackup => if ok {
                Self::DropPrimary
            } else {
                fail
            },
            Self::DropPrimary => if ok {
                Self::PlaceTemporary
            } else {
                fail
            },
            Self::PlaceTemporary => if ok {
                Self::Saved
            } else {
                Self::TestPrimaryAgain
            },
            Self::TestPrimaryAgain => if ok {
                fail
            } else {
                Self::TestBackup
            },
            Self::TestBackup => if ok {
                Self::RestoreBackup
            } else {
                fail
            },
            Self::RestoreBackup => Self::DropTemporary { lost: !ok },
            Self::DropTemporary { lost } => if lost {
                Self::FailedTwice
            } else {
                Self::Failed
            },
            Self::Saved => Self::Saved,
            Self::Failed => Self::Failed,
            Self::FailedTwice => Self::FailedTwice,
        }
    }
}

/// What a step does to the files when a readable store `current` is replaced by `fresh`.
pub open spec fn save_moves(
    step: SaveStep,
    ok: bool,
    before: Disk,
    after: Disk,
    current: Seq<u8>,
    fresh: Seq<u8>,
) -> bool {
    match step {
        SaveStep::WriteTemporary => after == (Disk { temporary: after.temporary, ..before }) && (ok
            ==> after.temporary == Some(fresh)),
        SaveStep::TestPrimary | SaveStep::TestPrimaryAgain => after == before && ok == (
        before.primary is Some),
        SaveStep::ReadPrimary => after == before && (before.primary == Some(current) ==> ok),
        SaveStep::RefreshBackup => after.primary == before.primary && after.temporary
            == before.temporary && (ok ==> after.backup == before.primary),
        SaveStep::DropPrimary => after == if ok {
            Disk { primary: None, ..before }
        } else {
            before
        },
        SaveStep::PlaceTemporary => after == if ok {
            Disk { primary: before.temporary, temporary: None, ..before }
        } else {
            before
        },
        SaveStep::TestBackup => after == before && ok == (before.backup is Some),
        SaveStep::RestoreBackup => after.backup == before.backup && (ok ==> after.primary
            == before.backup),
        SaveStep::DropTemporary { .. } => after == (Disk { temporary: after.temporary, ..before }),
        _ => after == before,
    }
}

/// What holds before each step of a save that replaces a readable store.
pub open spec fn save_holds(step: SaveStep, disk: Disk, current: Seq<u8>, fresh: Seq<u8>) -> bool {
    match step {
        SaveStep::MakeDirectory | SaveStep::WriteTemporary => disk.primary == Some(current),
        SaveStep::TestPrimary | SaveStep::ReadPrimary | SaveStep::RefreshBackup => disk.primary
            == Some(current) && disk.temporary == Some(fresh),
        SaveStep::DropPrimary => disk.backup == Some(current) && disk.temporary == Some(fresh),
        SaveStep::PlaceTemporary => disk.backup == Some(current) && disk.temporary == Some(fresh),
        SaveStep::TestPrimaryAgain | SaveStep::TestBackup | SaveStep::RestoreBackup => disk.backup
            == Some(current),
        SaveStep::Saved => disk.primary == Some(fresh) && disk.backup == Some(current),
        _ => disk.primary == Some(current) || disk.backup == Some(current),
    }
}

/// At every step of a save, and however it ends, the readable store that was there or the new one
/// is in the primary file or in the backup. A save that succeeds leaves the new store as the
/// primary file and the previous one as the backup.
pub proof fn saving_never_loses_the_store(
    step: SaveStep,
    ok: bool,
    before: Disk,
    after: Disk,
    current: Seq<u8>,
    fresh: Seq<u8>,
)
    requires
        save_holds(step, before, current, fresh),
        save_moves(step, ok, before, after, current, fresh),
    ensures
        save_holds(save_after(step, ok), after, current, fresh),
        after.primary == Some(current) || after.backup == Some(current) || after.primary == Some(
            fresh,
        ),
        save_after(step, ok) == SaveStep::Saved ==> after.primary == Some(fresh) && after.backup
            == Some(current),
{
}

/// How far a step is from the end.
pub open spec fn save_rank(step: SaveStep) -> nat {
    match step {
        SaveStep::MakeDirectory => 11,
        SaveStep::WriteTemporary => 10,
        SaveStep::TestPrimary => 9,
        SaveStep::ReadPrimary => 8,
        SaveStep::RefreshBackup => 7,
        SaveStep::DropPrimary => 6,
        SaveStep::PlaceTemporary => 5,
        SaveStep::TestPrimaryAgain => 4,
        SaveStep::TestBackup => 3,
        SaveStep::RestoreBackup => 2,
        SaveStep::DropTemporary { .. } => 1,
        _ => 0,
    }
}

/// Every save comes to an end.
pub proof fn saving_ends(step: SaveStep, ok: bool)
    ensures
        save_rank(step) > 0 ==> save_rank(save_after(step, ok)) < save_rank(step),
        save_rank(step) == 0 <==> step == SaveStep::Saved || step == SaveStep::Failed || step
            == SaveStep::FailedTwice,
{
}

/// A readable store is loaded. Where it is missing or damaged, strict loading touches nothing and
/// says so, and the recovering one goes back to a readable backup; without either file the store
/// is new.
pub proof fn stores_are_loaded_where_they_can_be(primary: FileState, backup: FileState)
    ensures
        primary == FileState::Readable ==> strict_choice(primary, backup != FileState::Missing)
            == LoadChoice::Primary && recovering_choice(primary, backup) == LoadChoice::Primary,
        primary != FileState::Readable && backup == FileState::Readable ==> recovering_choice(
            primary,
            backup,
        ) == LoadChoice::RestoreBackup,
        primary == FileState::Missing && backup == FileState::Missing ==> strict_choice(
            primary,
            false,
        ) == LoadChoice::Fresh && recovering_choice(primary, backup) == LoadChoice::Fresh,
        primary == FileState::Damaged ==> strict_choice(primary, backup != FileState::Missing)
            == LoadChoice::PrimaryFault,
        primary == FileState::Missing && backup != FileState::Missing ==> strict_choice(
            primary,
            true,
        ) == LoadChoice::RecoveryRequired,
        recovering_choice(primary, backup) == LoadChoice::Fresh ==> primary == FileState::Missing
            && backup == FileState::Missing,
{
}

/// A save in which nothing goes wrong succeeds, be it the first or one that replaces a store, with
/// the new contents in place.
pub proof fn saves_succeed_where_nothing_fails()
    ensures
        save_after(
            save_after(
                save_after(save_after(SaveStep::MakeDirectory, true), true),
                false,
            ),
            true,
        ) == SaveStep::Saved,
        save_after(
            save_after(
                save_after(
                    save_after(
                        save_after(
                            save_after(save_after(SaveStep::MakeDirectory, true), true),
                            true,
                        ),
                        true,
                    ),
                    true,
                ),
                true,
            ),
            true,
        ) == SaveStep::Saved,
        refresh_after(
            refresh_after(
                refresh_after(refresh_after(RefreshStep::CopyPrimary, true), true),
                true,
            ),
            true,
        ) == RefreshStep::Renewed,
        restore_after(
            restore_after(restore_after(RestoreStep::TestPrimary, false), true),
            true,
        ) == RestoreStep::Restored,
        restore_after(
            restore_after(
                restore_after(restore_after(RestoreStep::TestPrimary, true), true),
                true,
            ),
            true,
        ) == RestoreStep::Restored,
{
}

/// A save reports success only once the new contents were put in place, and whatever fails before
/// that ends in a failure.
pub proof fn saves_succeed_only_by_placing_the_new_store(step: SaveStep, ok: bool)
    requires
        step != SaveStep::Saved,
    ensures
        save_after(step, ok) == SaveStep::Saved ==> step == SaveStep::PlaceTemporary && ok,
        (step == SaveStep::MakeDirectory || step == SaveStep::WriteTemporary) && !ok
            ==> save_after(step, ok) == SaveStep::Failed || (save_after(step, ok) matches
            SaveStep::DropTemporary { lost } && !lost),
{
}

/// What went wrong with the store is told with the text that came with it.
pub proof fn storage_failures_keep_their_text(text: String, other: String)
    ensures
        text@.is_suffix_of(StorageError::Io(text).said()),
        text@.is_suffix_of(StorageError::Json(text).said()),
        text@.is_suffix_of(StorageError::BackupRecoveryRequired(text).said()),
        text@.is_suffix_of(StorageError::WriteBlocked(text).said()),
        other@.is_suffix_of(StorageError::RecoveryFailed { write: text, recovery: other }.said()),
{
    let a = StorageError::Io(text).said();
    let b = StorageError::Json(text).said();
    let c = StorageError::BackupRecoveryRequired(text).said();
    let d = StorageError::WriteBlocked(text).said();
    let e = StorageError::RecoveryFailed { write: text, recovery: other }.said();
    assert(a.skip(a.len() - text@.len()) =~= text@);
    assert(b.skip(b.len() - text@.len()) =~= text@);
    assert(c.skip(c.len() - text@.len()) =~= text@);
    assert(d.skip(d.len() - text@.len()) =~= text@);
    assert(e.skip(e.len() - other@.len()) =~= other@);
}

} // verus!
