//! Where the minimum age comes from: the command line or Cargo's configuration.

use crate::age;
use crate::age::{parse_min_publish_age, AgeError, AgeErrorModel};
use crate::document;
use crate::document::{find_entry, parse_toml, Node, Toml};
use crate::text;
use crate::text::i64_text;
use vstd::prelude::*;
use vstd::string::*;

verus! {

/// The configuration of a directory and all below it.
pub const PROJECT_CONFIG: &'static str = ".cargo/config.toml";

/// The configuration of a directory under its older name.
pub const PROJECT_CONFIG_LEGACY: &'static str = ".cargo/config";

/// The configuration in Cargo's home.
pub const HOME_CONFIG: &'static str = "config.toml";

/// The configuration in Cargo's home under its older name.
pub const HOME_CONFIG_LEGACY: &'static str = "config";

/// What is found in the place of a configuration file.
#[derive(Debug)]
pub enum FileState {
    /// There is no file.
    Absent,
    /// The file cannot be read. Says why.
    Unreadable(String),
    /// The contents of the file.
    Text(String),
}

/// A configuration file, with the path that messages name it by.
#[derive(Debug)]
pub struct ConfigFile {
    pub source: String,
    pub state: FileState,
}

/// The configuration files of a directory, under the present and the older name.
#[derive(Debug)]
pub struct ConfigDir {
    pub modern: ConfigFile,
    pub legacy: ConfigFile,
}

/// All the configuration files that count for a manifest: those of its directory and the
/// directories above, nearest first, and those of Cargo's home.
#[derive(Debug)]
pub struct ConfigSearch {
    pub ancestors: Vec<ConfigDir>,
    pub home: Option<ConfigDir>,
}

/// Why the configuration gives no minimum age. Each names the file.
#[derive(Debug)]
pub enum ConfigError {
    Unreadable { source: String, reason: String },
    InvalidToml { source: String, reason: String },
    /// The value is no text.
    NotText { source: String },
    /// The value is no age.
    Age { source: String, error: AgeError },
}

/// Why there is no minimum age.
#[derive(Debug)]
pub enum ResolveError {
    /// The command line gives a negative one.
    NegativeFlag(i64),
    /// The configuration is at fault.
    Config(ConfigError),
}

/// The mathematical value of a [`FileState`].
pub enum StateModel {
    Absent,
    Unreadable(Seq<char>),
    Text(Seq<char>),
}

/// The mathematical value of a [`ConfigFile`].
pub struct FileModel {
    pub source: Seq<char>,
    pub state: StateModel,
}

/// The mathematical value of a [`ConfigError`].
pub enum ConfigErrorModel {
    Unreadable { source: Seq<char>, reason: Seq<char> },
    InvalidToml { source: Seq<char>, reason: Seq<char> },
    NotText { source: Seq<char> },
    Age { source: Seq<char>, error: AgeErrorModel },
}

/// The mathematical value of a [`ResolveError`].
pub enum ResolveErrorModel {
    NegativeFlag(int),
    Config(ConfigErrorModel),
}

impl View for FileState {
    type V = StateModel;

    open spec fn view(&self) -> StateModel {
        match self {
            FileState::Absent => StateModel::Absent,
            FileState::Unreadable(reason) => StateModel::Unreadable(reason@),
            FileState::Text(contents) => StateModel::Text(contents@),
        }
    }
}

impl View for ConfigFile {
    type V = FileModel;

    open spec fn view(&self) -> FileModel {
        FileModel { source: self.source@, state: self.state@ }
    }
}

impl View for ConfigError {
    type V = ConfigErrorModel;

    open spec fn view(&self) -> ConfigErrorModel {
        match self {
            ConfigError::Unreadable { source, reason } => ConfigErrorModel::Unreadable {
                source: source@,
                reason: reason@,
            },
            ConfigError::InvalidToml { source, reason } => ConfigErrorModel::InvalidToml {
                source: source@,
                reason: reason@,
            },
            ConfigError::NotText { source } => ConfigErrorModel::NotText { source: source@ },
            ConfigError::Age { source, error } => ConfigErrorModel::Age {
                source: source@,
                error: error@,
            },
        }
    }
}

impl View for ResolveError {
    type V = ResolveErrorModel;

    open spec fn view(&self) -> ResolveErrorModel {
        match self {
            ResolveError::NegativeFlag(n) => ResolveErrorModel::NegativeFlag(*n as int),
            ResolveError::Config(error) => ResolveErrorModel::Config(error@),
        }
    }
}

/// The minimum age that a configuration sets, if it does.
pub open spec fn age_in_config(config: Node, source: Seq<char>) -> Result<
    Option<int>,
    ConfigErrorModel,
> {
    match config.get_table("registry"@) {
        None => Ok(None),
        Some(registry) => match document::lookup(registry, "min-publish-age"@) {
            None => Ok(None),
            Some(Node::Text(raw)) => match age::read_age(raw) {
                Ok(days) => Ok(Some(days)),
                Err(error) => Err(ConfigErrorModel::Age { source, error }),
            },
            Some(_) => Err(ConfigErrorModel::NotText { source }),
        },
    }
}

/// The minimum age that the text of a configuration sets, if it does.
pub open spec fn age_in_text(contents: Seq<char>, source: Seq<char>) -> Result<
    Option<int>,
    ConfigErrorModel,
> {
    match document::toml_document(contents) {
        Ok(config) => age_in_config(config, source),
        Err(reason) => Err(ConfigErrorModel::InvalidToml { source, reason }),
    }
}

/// The minimum age that a configuration file sets, if it does. A file that is not there sets
/// none.
pub open spec fn age_in_file(file: FileModel) -> Result<Option<int>, ConfigErrorModel> {
    match file.state {
        StateModel::Absent => Ok(None),
        StateModel::Unreadable(reason) => Err(
            ConfigErrorModel::Unreadable { source: file.source, reason },
        ),
        StateModel::Text(contents) => age_in_text(contents, file.source),
    }
}

/// The minimum age of the first of some files that sets one, with the path of that file. The
/// files after it do not matter; one before it that is at fault does.
pub open spec fn age_in_files(files: Seq<FileModel>) -> Result<
    Option<(int, Seq<char>)>,
    ConfigErrorModel,
>
    decreases files.len(),
{
    if files.len() == 0 {
        Ok(None)
    } else {
        match age_in_file(files[0]) {
            Err(error) => Err(error),
            Ok(Some(days)) => Ok(Some((days, files[0].source))),
            Ok(None) => age_in_files(files.skip(1)),
        }
    }
}

/// The files of some directories in the order in which they count: directory by directory,
/// the present name before the older one.
pub open spec fn files_of(dirs: Seq<ConfigDir>) -> Seq<FileModel>
    decreases dirs.len(),
{
    if dirs.len() == 0 {
        Seq::empty()
    } else {
        files_of(dirs.drop_last()) + seq![dirs.last().modern@, dirs.last().legacy@]
    }
}

/// The files of Cargo's home, if there is one.
pub open spec fn files_of_home(home: Option<&ConfigDir>) -> Seq<FileModel> {
    match home {
        Some(dir) => seq![dir.modern@, dir.legacy@],
        None => Seq::empty(),
    }
}

/// The outcome says of some files what they come to.
pub open spec fn tells(
    outcome: Result<Option<(i64, String)>, ConfigError>,
    files: Seq<FileModel>,
) -> bool {
    match outcome {
        Ok(Some((days, source))) => age_in_files(files) == Ok::<
            Option<(int, Seq<char>)>,
            ConfigErrorModel,
        >(Some((days as int, source@))),
        Ok(None) => age_in_files(files) == Ok::<Option<(int, Seq<char>)>, ConfigErrorModel>(None),
        Err(error) => age_in_files(files) == Err::<Option<(int, Seq<char>)>, ConfigErrorModel>(
            error@,
        ),
    }
}

/// Of two rows of files the second counts only if nothing in the first does.
pub proof fn nearer_files_decide(near: Seq<FileModel>, far: Seq<FileModel>)
    ensures
        age_in_files(near + far) == match age_in_files(near) {
            Ok(None) => age_in_files(far),
            decided => decided,
        },
    decreases near.len(),
{
    if near.len() == 0 {
        assert(near + far == far);
    } else {
        nearer_files_decide(near.skip(1), far);
        assert((near + far).skip(1) == near.skip(1) + far);
    }
}

/// A configured age is never negative.
pub proof fn a_configured_age_is_never_negative(files: Seq<FileModel>)
    ensures
        age_in_files(files) matches Ok(Some((days, _))) ==> 0 <= days <= i64::MAX,
    decreases files.len(),
{
    if files.len() > 0 {
        a_configured_age_is_never_negative(files.skip(1));
    }
}

/// Reads the minimum age that a configuration sets, if it does.
pub fn min_age_in_config(config: &Toml, source: &str) -> (result: Result<Option<i64>, ConfigError>)
    ensures
        match result {
            Ok(Some(days)) => age_in_config(config@, source@) == Ok::<
                Option<int>,
                ConfigErrorModel,
            >(Some(days as int)),
            Ok(None) => age_in_config(config@, source@) == Ok::<Option<int>, ConfigErrorModel>(
                None,
            ),
            Err(error) => age_in_config(config@, source@) == Err::<Option<int>, ConfigErrorModel>(
                error@,
            ),
        },
{
    let registry = match config.get_table("registry") {
        Some(table) => table,
        None => return Ok(None),
    };
    let raw = match find_entry(registry, "min-publish-age") {
        Some(value) => value,
        None => return Ok(None),
    };
    let s = match raw.as_str() {
        Some(s) => s,
        None => return Err(ConfigError::NotText { source: source.to_owned() }),
    };
    match parse_min_publish_age(s.as_str()) {
        Ok(days) => Ok(Some(days)),
        Err(error) => Err(ConfigError::Age { source: source.to_owned(), error }),
    }
}

/// Reads the minimum age that the text of a configuration sets, if it does. `source` names the
/// file in errors.
pub fn read_config_min_age_from_str(contents: &str, source: &str) -> (result: Result<
    Option<i64>,
    ConfigError,
>)
    ensures
        match result {
            Ok(Some(days)) => age_in_text(contents@, source@) == Ok::<
                Option<int>,
                ConfigErrorModel,
            >(Some(days as int)),
            Ok(None) => age_in_text(contents@, source@) == Ok::<Option<int>, ConfigErrorModel>(
                None,
            ),
            Err(error) => age_in_text(contents@, source@) == Err::<Option<int>, ConfigErrorModel>(
                error@,
            ),
        },
{
    match parse_toml(contents) {
        Ok(config) => min_age_in_config(&config, source),
        Err(reason) => Err(ConfigError::InvalidToml { source: source.to_owned(), reason }),
    }
}

/// Reads the minimum age that a configuration file sets, if it does.
pub fn read_config_min_age_from_file(file: &ConfigFile) -> (result: Result<
    Option<i64>,
    ConfigError,
>)
    ensures
        match result {
            Ok(Some(days)) => age_in_file(file@) == Ok::<Option<int>, ConfigErrorModel>(
                Some(days as int),
            ),
            Ok(None) => age_in_file(file@) == Ok::<Option<int>, ConfigErrorModel>(None),
            Err(error) => age_in_file(file@) == Err::<Option<int>, ConfigErrorModel>(error@),
        },
{
    match &file.state {
        FileState::Absent => Ok(None),
        FileState::Unreadable(reason) => Err(
            ConfigError::Unreadable { source: file.source.clone(), reason: reason.clone() },
        ),
        FileState::Text(contents) => read_config_min_age_from_str(
            contents.as_str(),
            file.source.as_str(),
        ),
    }
}

/// Reads the minimum age that one of the two files of a directory sets, if it does.
fn find_in_dir(dir: &ConfigDir) -> (result: Result<Option<(i64, String)>, ConfigError>)
    ensures
        tells(result, seq![dir.modern@, dir.legacy@]),
{
    let ghost files = seq![dir.modern@, dir.legacy@];
    proof {
        assert(files.skip(1) == seq![dir.legacy@]);
        assert(files.skip(1).skip(1) == Seq::<FileModel>::empty());
        reveal_with_fuel(age_in_files, 3);
    }
    match read_config_min_age_from_file(&dir.modern) {
        Ok(Some(days)) => return Ok(Some((days, dir.modern.source.clone()))),
        Ok(None) => {},
        Err(error) => return Err(error),
    }
    match read_config_min_age_from_file(&dir.legacy) {
        Ok(Some(days)) => Ok(Some((days, dir.legacy.source.clone()))),
        Ok(None) => Ok(None),
        Err(error) => Err(error),
    }
}

/// Finds the minimum age that the configuration sets: the nearest directory counts first, and
/// Cargo's home last. Gives the age and the path of the file.
pub fn find_config_min_age_with_home(
    ancestors: &Vec<ConfigDir>,
    home: Option<&ConfigDir>,
) -> (result: Result<Option<(i64, String)>, ConfigError>)
    ensures
        tells(result, files_of(ancestors@) + files_of_home(home)),
{
    let mut i: usize = 0;
    while i < ancestors.len()
        invariant
            i <= ancestors.len(),
            age_in_files(files_of(ancestors@.take(i as int))) == Ok::<
                Option<(int, Seq<char>)>,
                ConfigErrorModel,
            >(None),
        decreases ancestors.len() - i,
    {
        let found: Result<Option<(i64, String)>, ConfigError> = find_in_dir(&ancestors[i]);
        proof {
            let seen = ancestors@.take(i + 1);
            let dir = ancestors@[i as int];
            assert(seen.drop_last() == ancestors@.take(i as int));
            nearer_files_decide(
                files_of(ancestors@.take(i as int)),
                seq![dir.modern@, dir.legacy@],
            );
            assert(tells(found, files_of(seen)));
            lemma_files_split(ancestors@, i + 1);
            nearer_files_decide(files_of(seen), files_of(ancestors@.skip(i + 1)));
            nearer_files_decide(files_of(ancestors@), files_of_home(home));
        }
        match found {
            Ok(None) => {},
            decided => return decided,
        }
        i += 1;
    }
    proof {
        assert(ancestors@.take(i as int) == ancestors@);
        nearer_files_decide(files_of(ancestors@), files_of_home(home));
    }
    match home {
        Some(dir) => find_in_dir(dir),
        None => Ok(None),
    }
}

proof fn lemma_files_split(dirs: Seq<ConfigDir>, k: int)
    requires
        0 <= k <= dirs.len(),
    ensures
        files_of(dirs) == files_of(dirs.take(k)) + files_of(dirs.skip(k)),
    decreases dirs.len() - k,
{
    if k == dirs.len() {
        assert(dirs.take(k) == dirs);
        assert(files_of(dirs.skip(k)) == Seq::<FileModel>::empty());
    } else {
        lemma_files_split(dirs.drop_last(), k);
        assert(dirs.drop_last().take(k) == dirs.take(k));
        assert(dirs.skip(k).drop_last() == dirs.drop_last().skip(k));
        assert(dirs.skip(k).last() == dirs.last());
    }
}

/// Finds the minimum age that the configuration for a manifest sets, with the path of the file.
pub fn find_config_min_age(search: &ConfigSearch) -> (result: Result<
    Option<(i64, String)>,
    ConfigError,
>)
    ensures
        tells(result, files_in(*search)),
{
    find_config_min_age_with_home(&search.ancestors, search.home.as_ref())
}

/// The files that count for a manifest, in the order in which they count.
pub open spec fn files_in(search: ConfigSearch) -> Seq<FileModel> {
    files_of(search.ancestors@) + files_of_home(
        match search.home {
            Some(dir) => Some(&dir),
            None => None,
        },
    )
}

/// The note that says which file sets the minimum age.
pub open spec fn source_note(days: int, source: Seq<char>) -> Seq<char> {
    "Using min-publish-age = "@ + text::decimal(days) + " days from "@ + source
        + " ([registry].min-publish-age)"@
}

/// The minimum age, with a note on its source where that is the configuration. The command
/// line goes before the configuration.
pub open spec fn resolved_age(min_age: Option<i64>, files: Seq<FileModel>) -> Result<
    Option<(int, Option<Seq<char>>)>,
    ResolveErrorModel,
> {
    match min_age {
        Some(days) => if days < 0 {
            Err(ResolveErrorModel::NegativeFlag(days as int))
        } else {
            Ok(Some((days as int, None)))
        },
        None => match age_in_files(files) {
            Ok(Some((days, source))) => Ok(Some((days, Some(source_note(days, source))))),
            Ok(None) => Ok(None),
            Err(error) => Err(ResolveErrorModel::Config(error)),
        },
    }
}

/// Finds the minimum age: the one of the command line, or else the one of the configuration,
/// which comes with a note on its source.
pub fn resolve_min_age(min_age: Option<i64>, search: &ConfigSearch) -> (result: Result<
    Option<(i64, Option<String>)>,
    ResolveError,
>)
    ensures
        match result {
            Ok(Some((days, note))) => resolved_age(min_age, files_in(*search)) == Ok::<
                Option<(int, Option<Seq<char>>)>,
                ResolveErrorModel,
            >(Some((days as int, text::option_view(note)))),
            Ok(None) => resolved_age(min_age, files_in(*search)) == Ok::<
                Option<(int, Option<Seq<char>>)>,
                ResolveErrorModel,
            >(None),
            Err(error) => resolved_age(min_age, files_in(*search)) == Err::<
                Option<(int, Option<Seq<char>>)>,
                ResolveErrorModel,
            >(error@),
        },
{
    if let Some(days) = min_age {
        if days < 0 {
            return Err(ResolveError::NegativeFlag(days));
        }
        return Ok(Some((days, None)));
    }
    match find_config_min_age(search) {
        Ok(Some((days, source))) => {
            let mut note: String = "Using min-publish-age = ".to_owned();
            note.append(i64_text(days).as_str());
            note.append(" days from ");
            note.append(source.as_str());
            note.append(" ([registry].min-publish-age)");
            Ok(Some((days, Some(note))))
        },
        Ok(None) => Ok(None),
        Err(error) => Err(ResolveError::Config(error)),
    }
}

/// A minimum age on the command line decides, whatever the configuration holds.
pub proof fn the_command_line_goes_first(
    days: i64,
    files: Seq<FileModel>,
    other_files: Seq<FileModel>,
)
    ensures
        resolved_age(Some(days), files) == resolved_age(Some(days), other_files),
        days >= 0 ==> resolved_age(Some(days), files) == Ok::<
            Option<(int, Option<Seq<char>>)>,
            ResolveErrorModel,
        >(Some((days as int, None))),
{
}

/// No minimum age is made up: there is one only if the command line or a file sets it.
pub proof fn no_age_is_made_up(files: Seq<FileModel>)
    requires
        forall|i: int| 0 <= i < files.len() ==> age_in_file(#[trigger] files[i]) == Ok::<
            Option<int>,
            ConfigErrorModel,
        >(None),
    ensures
        resolved_age(None, files) == Ok::<Option<(int, Option<Seq<char>>)>, ResolveErrorModel>(
            None,
        ),
    decreases files.len(),
{
    if files.len() > 0 {
        assert(age_in_file(files[0]) == Ok::<Option<int>, ConfigErrorModel>(None));
        let rest = files.skip(1);
        assert forall|i: int| 0 <= i < rest.len() implies age_in_file(#[trigger] rest[i]) == Ok::<
            Option<int>,
            ConfigErrorModel,
        >(None) by {
            assert(rest[i] == files[i + 1]);
        }
        no_age_is_made_up(rest);
    }
}

/// A minimum age is never negative, wherever it comes from.
pub proof fn a_minimum_age_is_never_negative(min_age: Option<i64>, files: Seq<FileModel>)
    ensures
        resolved_age(min_age, files) matches Ok(Some((days, _))) ==> 0 <= days <= i64::MAX,
{
    a_configured_age_is_never_negative(files);
}

/// What is said where no minimum age is set.
pub const NO_MIN_AGE: &'static str =
    "no minimum release age configured. Set --min-age <DAYS> on the command line, or add `[registry] min-publish-age = \"14 days\"` to .cargo/config.toml.";

/// Takes the minimum age that was found, with the note on its source. Where none was found, the
/// error says what to do.
pub fn require_min_age(found: Option<(i64, Option<String>)>) -> (result: Result<
    (i64, Option<String>),
    String,
>)
    ensures
        match found {
            Some(age) => result == Ok::<(i64, Option<String>), String>(age),
            None => result matches Err(message) && message@ == NO_MIN_AGE@,
        },
{
    match found {
        Some(age) => Ok(age),
        None => Err(NO_MIN_AGE.to_owned()),
    }
}

/// The directory that is Cargo's home.
#[derive(Debug)]
pub enum CargoHome {
    /// The directory itself.
    Itself(String),
    /// The home of the user, in which it is the directory `.cargo`.
    InUserHome(String),
}

/// Finds Cargo's home by the values of `CARGO_HOME` and `HOME`. The first goes before the
/// second.
pub fn cargo_home(cargo_home_var: Option<String>, home_var: Option<String>) -> (dir:
    Option<CargoHome>)
    ensures
        dir == match (cargo_home_var, home_var) {
            (Some(path), _) => Some(CargoHome::Itself(path)),
            (None, Some(path)) => Some(CargoHome::InUserHome(path)),
            (None, None) => None,
        },
{
    if let Some(path) = cargo_home_var {
        return Some(CargoHome::Itself(path));
    }
    if let Some(path) = home_var {
        return Some(CargoHome::InUserHome(path));
    }
    None
}

impl ConfigErrorModel {
    /// What is wrong with which file.
    pub open spec fn message(self) -> Seq<char> {
        match self {
            ConfigErrorModel::Unreadable { source, .. } => "could not read "@ + source,
            ConfigErrorModel::InvalidToml { source, .. } => "invalid TOML in "@ + source,
            ConfigErrorModel::NotText { source } => "[registry].min-publish-age in "@ + source
                + " must be a string like \"14 days\""@,
            ConfigErrorModel::Age { source, .. } => "in "@ + source
                + " ([registry].min-publish-age)"@,
        }
    }

    /// What is wrong with which file, and why.
    pub open spec fn full_message(self) -> Seq<char> {
        match self {
            ConfigErrorModel::Unreadable { reason, .. } => self.message() + ": "@ + reason,
            ConfigErrorModel::InvalidToml { reason, .. } => self.message() + ": "@ + reason,
            ConfigErrorModel::NotText { .. } => self.message(),
            ConfigErrorModel::Age { error, .. } => self.message() + ": "@ + error.full_message(),
        }
    }
}

impl ConfigError {
    /// Says what is wrong with which file.
    pub fn message(&self) -> (message: String)
        ensures
            message@ == self@.message(),
    {
        match self {
            ConfigError::Unreadable { source, .. } => {
                let mut out: String = "could not read ".to_owned();
                out.append(source.as_str());
                out
            },
            ConfigError::InvalidToml { source, .. } => {
                let mut out: String = "invalid TOML in ".to_owned();
                out.append(source.as_str());
                out
            },
            ConfigError::NotText { source } => {
                let mut out: String = "[registry].min-publish-age in ".to_owned();
                out.append(source.as_str());
                out.append(" must be a string like \"14 days\"");
                out
            },
            ConfigError::Age { source, .. } => {
                let mut out: String = "in ".to_owned();
                out.append(source.as_str());
                out.append(" ([registry].min-publish-age)");
                out
            },
        }
    }

    /// Says what is wrong with which file, and why.
    pub fn full_message(&self) -> (message: String)
        ensures
            message@ == self@.full_message(),
    {
        let mut out: String = self.message();
        match self {
            ConfigError::Unreadable { reason, .. } => {
                out.append(": ");
                out.append(reason.as_str());
            },
            ConfigError::InvalidToml { reason, .. } => {
                out.append(": ");
                out.append(reason.as_str());
            },
            ConfigError::NotText { .. } => {},
            ConfigError::Age { error, .. } => {
                out.append(": ");
                out.append(error.full_message().as_str());
            },
        }
        out
    }
}

impl ResolveError {
    /// Says why there is no minimum age.
    pub fn full_message(&self) -> (message: String)
        ensures
            message@ == match self@ {
                ResolveErrorModel::NegativeFlag(n) => "--min-age must be non-negative, got "@
                    + text::decimal(n),
                ResolveErrorModel::Config(error) => error.full_message(),
            },
    {
        match self {
            ResolveError::NegativeFlag(n) => {
                let mut out: String = "--min-age must be non-negative, got ".to_owned();
                out.append(i64_text(*n).as_str());
                out
            },
            ResolveError::Config(error) => error.full_message(),
        }
    }
}

/// The first file that sets an age, or is at fault, decides, at whatever place it stands.
pub proof fn the_first_file_that_says_anything_decides(files: Seq<FileModel>, k: int)
    requires
        0 <= k < files.len(),
        forall|j: int| 0 <= j < k ==> age_in_file(#[trigger] files[j]) == Ok::<
            Option<int>,
            ConfigErrorModel,
        >(None),
    ensures
        age_in_file(files[k]) matches Ok(Some(days)) ==> {
            &&& age_in_files(files) == Ok::<Option<(int, Seq<char>)>, ConfigErrorModel>(
                Some((days, files[k].source)),
            )
            &&& resolved_age(None, files) == Ok::<
                Option<(int, Option<Seq<char>>)>,
                ResolveErrorModel,
            >(
                Some(
                    (
                        days,
                        Some(
                            "Using min-publish-age = "@ + text::decimal(days) + " days from "@
                                + files[k].source + " ([registry].min-publish-age)"@,
                        ),
                    ),
                ),
            )
        },
        age_in_file(files[k]) matches Err(error) ==> {
            &&& age_in_files(files) == Err::<Option<(int, Seq<char>)>, ConfigErrorModel>(error)
            &&& resolved_age(None, files) == Err::<
                Option<(int, Option<Seq<char>>)>,
                ResolveErrorModel,
            >(ResolveErrorModel::Config(error))
        },
    decreases k,
{
    if k > 0 {
        assert(age_in_file(files[0]) == Ok::<Option<int>, ConfigErrorModel>(None));
        let rest = files.skip(1);
        assert forall|j: int| 0 <= j < k - 1 implies age_in_file(#[trigger] rest[j]) == Ok::<
            Option<int>,
            ConfigErrorModel,
        >(None) by {
            assert(rest[j] == files[j + 1]);
        }
        the_first_file_that_says_anything_decides(rest, k - 1);
        assert(rest[k - 1] == files[k]);
    }
}

/// The files count directory by directory, nearest first, in each the present name before the
/// older one, and those of Cargo's home after all others.
pub proof fn files_count_nearest_first_and_home_last(
    dirs: Seq<ConfigDir>,
    home: ConfigDir,
    search: ConfigSearch,
    i: int,
)
    requires
        search.ancestors@ == dirs,
    ensures
        files_of(dirs).len() == 2 * dirs.len(),
        0 <= i < dirs.len() ==> {
            &&& files_of(dirs)[2 * i] == dirs[i].modern@
            &&& files_of(dirs)[2 * i + 1] == dirs[i].legacy@
            &&& files_in(search)[2 * i] == dirs[i].modern@
            &&& files_in(search)[2 * i + 1] == dirs[i].legacy@
        },
        files_of_home(Some(&home)).len() == 2,
        files_of_home(Some(&home))[0] == home.modern@,
        files_of_home(Some(&home))[1] == home.legacy@,
        files_of_home(None).len() == 0,
        search.home is None ==> files_in(search).len() == 2 * dirs.len(),
        search.home == Some(home) ==> {
            &&& files_in(search).len() == 2 * dirs.len() + 2
            &&& files_in(search)[2 * dirs.len() as int] == home.modern@
            &&& files_in(search)[2 * dirs.len() as int + 1] == home.legacy@
        },
{
    lemma_files_in_order(dirs);
}

proof fn lemma_files_in_order(dirs: Seq<ConfigDir>)
    ensures
        files_of(dirs).len() == 2 * dirs.len(),
        forall|i: int|
            0 <= i < dirs.len() ==> files_of(dirs)[2 * i] == (#[trigger] dirs[i]).modern@
                && files_of(dirs)[2 * i + 1] == dirs[i].legacy@,
    decreases dirs.len(),
{
    if dirs.len() > 0 {
        let rest = dirs.drop_last();
        lemma_files_in_order(rest);
        assert forall|i: int| 0 <= i < dirs.len() implies files_of(dirs)[2 * i] == (
        #[trigger] dirs[i]).modern@ && files_of(dirs)[2 * i + 1] == dirs[i].legacy@ by {
            if i < rest.len() {
                assert(rest[i] == dirs[i]);
            }
        }
    }
}

/// A file that is not there sets nothing, one that cannot be read or is no TOML is at fault, and
/// any other sets what its document sets.
pub proof fn a_file_is_judged_by_its_contents(source: Seq<char>, said: Seq<char>)
    ensures
        age_in_file(FileModel { source, state: StateModel::Absent }) == Ok::<
            Option<int>,
            ConfigErrorModel,
        >(None),
        age_in_file(FileModel { source, state: StateModel::Unreadable(said) }) == Err::<
            Option<int>,
            ConfigErrorModel,
        >(ConfigErrorModel::Unreadable { source, reason: said }),
        document::toml_document(said) matches Err(reason) ==> age_in_file(
            FileModel { source, state: StateModel::Text(said) },
        ) == Err::<Option<int>, ConfigErrorModel>(ConfigErrorModel::InvalidToml { source, reason }),
        document::toml_document(said) matches Ok(config) ==> age_in_file(
            FileModel { source, state: StateModel::Text(said) },
        ) == age_in_config(config, source),
{
}

/// A configuration sets the age that it holds as a text under `min-publish-age` in its `registry`
/// table, whatever else it holds. Anything but a text there is at fault.
pub proof fn the_age_stands_in_the_registry_table(
    top: Seq<(Seq<char>, Node)>,
    r: int,
    registry: Seq<(Seq<char>, Node)>,
    m: int,
    source: Seq<char>,
)
    requires
        document::first_with_key(top, "registry"@, r),
        top[r].1 == Node::Table(registry),
        document::first_with_key(registry, "min-publish-age"@, m),
    ensures
        match registry[m].1 {
            Node::Text(raw) => age_in_config(Node::Table(top), source) == match age::read_age(raw) {
                Ok(days) => Ok::<Option<int>, ConfigErrorModel>(Some(days)),
                Err(error) => Err::<Option<int>, ConfigErrorModel>(
                    ConfigErrorModel::Age { source, error },
                ),
            },
            _ => age_in_config(Node::Table(top), source) == Err::<Option<int>, ConfigErrorModel>(
                ConfigErrorModel::NotText { source },
            ),
        },
{
    document::lemma_first_with_key(top, "registry"@);
    document::lemma_first_with_key(registry, "min-publish-age"@);
}

/// A configuration without that entry sets nothing.
pub proof fn without_the_entry_nothing_is_set(config: Node, source: Seq<char>)
    requires
        forall|r: int, m: int|
            #![trigger document::first_with_key(config->Table_0, "registry"@, r), document::first_with_key(config->Table_0[r].1->Table_0, "min-publish-age"@, m)]
            !(config is Table && document::first_with_key(config->Table_0, "registry"@, r)
                && config->Table_0[r].1 is Table && document::first_with_key(
                config->Table_0[r].1->Table_0,
                "min-publish-age"@,
                m,
            )),
    ensures
        age_in_config(config, source) == Ok::<Option<int>, ConfigErrorModel>(None),
{
    if config is Table {
        let top = config->Table_0;
        document::lemma_first_with_key(top, "registry"@);
        match document::lookup(top, "registry"@) {
            Some(Node::Table(registry)) => {
                let r = choose|r: int| #[trigger]
                    document::first_with_key(top, "registry"@, r) && top[r].1 == Node::Table(
                        registry,
                    );
                document::lemma_first_with_key(registry, "min-publish-age"@);
                if document::lookup(registry, "min-publish-age"@) is Some {
                    let m = choose|m: int| #[trigger]
                        document::first_with_key(registry, "min-publish-age"@, m);
                    assert(document::first_with_key(
                        config->Table_0[r].1->Table_0,
                        "min-publish-age"@,
                        m,
                    ));
                }
            },
            _ => {},
        }
    }
}

/// A negative age on the command line is refused, whatever the configuration holds; any other is
/// taken as it is, without a note.
pub proof fn the_command_line_is_taken_as_it_is(days: i64, files: Seq<FileModel>)
    ensures
        days >= 0 ==> resolved_age(Some(days), files) == Ok::<
            Option<(int, Option<Seq<char>>)>,
            ResolveErrorModel,
        >(Some((days as int, None))),
        days < 0 ==> resolved_age(Some(days), files) == Err::<
            Option<(int, Option<Seq<char>>)>,
            ResolveErrorModel,
        >(ResolveErrorModel::NegativeFlag(days as int)),
{
}

/// An outcome that tells of some files tells the age and the file that they come to, that they
/// come to none, or what is wrong with them.
pub proof fn an_outcome_tells_what_the_files_come_to(
    outcome: Result<Option<(i64, String)>, ConfigError>,
    files: Seq<FileModel>,
)
    requires
        tells(outcome, files),
    ensures
        age_in_files(files) matches Ok(Some((days, source))) ==> outcome matches Ok(Some(found))
            && found.0 == days && found.1@ == source,
        age_in_files(files) matches Ok(None) ==> outcome is Ok && outcome->Ok_0 is None,
        age_in_files(files) matches Err(error) ==> outcome matches Err(e) && e@ == error,
{
}

/// What is said of a configuration that is at fault.
pub proof fn a_faulty_configuration_is_told(
    source: Seq<char>,
    reason: Seq<char>,
    error: AgeErrorModel,
)
    ensures
        (ConfigErrorModel::Unreadable { source, reason }).full_message() == "could not read "@
            + source + ": "@ + reason,
        (ConfigErrorModel::InvalidToml { source, reason }).full_message() == "invalid TOML in "@
            + source + ": "@ + reason,
        (ConfigErrorModel::NotText { source }).full_message() == "[registry].min-publish-age in "@
            + source + " must be a string like \"14 days\""@,
        (ConfigErrorModel::Age { source, error }).full_message() == "in "@ + source
            + " ([registry].min-publish-age)"@ + ": "@ + error.full_message(),
{
}

/// The text of a configuration that is no TOML is at fault, and any other sets what its document
/// sets.
pub proof fn a_text_is_judged_by_its_document(contents: Seq<char>, source: Seq<char>)
    ensures
        document::toml_document(contents) matches Err(reason) ==> age_in_text(contents, source)
            == Err::<Option<int>, ConfigErrorModel>(
            ConfigErrorModel::InvalidToml { source, reason },
        ),
        document::toml_document(contents) matches Ok(config) ==> age_in_text(contents, source)
            == age_in_config(config, source),
{
}

/// The short form of what is said names the file.
pub proof fn a_faulty_configuration_is_named(
    source: Seq<char>,
    reason: Seq<char>,
    error: AgeErrorModel,
)
    ensures
        (ConfigErrorModel::Unreadable { source, reason }).message() == "could not read "@ + source,
        (ConfigErrorModel::InvalidToml { source, reason }).message() == "invalid TOML in "@
            + source,
        (ConfigErrorModel::NotText { source }).message() == "[registry].min-publish-age in "@
            + source + " must be a string like \"14 days\""@,
        (ConfigErrorModel::Age { source, error }).message() == "in "@ + source
            + " ([registry].min-publish-age)"@,
{
}

/// Files and errors are seen whole.
pub proof fn files_and_errors_are_seen_whole(
    file: ConfigFile,
    error: ConfigError,
    failure: ResolveError,
)
    ensures
        file@.source == file.source@,
        file.state is Absent <==> file@.state is Absent,
        file.state matches FileState::Unreadable(reason) ==> file@.state == StateModel::Unreadable(
            reason@,
        ),
        file.state matches FileState::Text(contents) ==> file@.state == StateModel::Text(contents@),
        error matches ConfigError::Unreadable { source, reason } ==> error@
            == (ConfigErrorModel::Unreadable { source: source@, reason: reason@ }),
        error matches ConfigError::InvalidToml { source, reason } ==> error@
            == (ConfigErrorModel::InvalidToml { source: source@, reason: reason@ }),
        error matches ConfigError::NotText { source } ==> error@ == (ConfigErrorModel::NotText {
            source: source@,
        }),
        error matches ConfigError::Age { source, error: age } ==> error@
            == (ConfigErrorModel::Age { source: source@, error: age@ }),
        failure matches ResolveError::NegativeFlag(n) ==> failure@
            == ResolveErrorModel::NegativeFlag(n as int),
        failure matches ResolveError::Config(e) ==> failure@ == ResolveErrorModel::Config(e@),
{
}

/// Where the files are looked for, and what is said where no age is set.
pub proof fn the_places_of_configuration()
    ensures
        PROJECT_CONFIG@ == ".cargo/config.toml"@,
        PROJECT_CONFIG_LEGACY@ == ".cargo/config"@,
        HOME_CONFIG@ == "config.toml"@,
        HOME_CONFIG_LEGACY@ == "config"@,
        NO_MIN_AGE@
            == "no minimum release age configured. Set --min-age <DAYS> on the command line, or add `[registry] min-publish-age = \"14 days\"` to .cargo/config.toml."@,
{
}

} // verus!
