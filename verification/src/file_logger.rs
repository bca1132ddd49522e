//! A log that starts a new file every day.
//!
//! Nothing here touches a file. The logger holds which day's file is open
//! and decides, from the time it is told, what is to be done next: which
//! file to move out of the way, which to open, what to append. Whoever owns
//! the files carries that out.

use crate::calendar::dashed_time_text;
use crate::calendar::date_text;
use crate::calendar::lemma_date_text_tells_day;
use crate::calendar::lemma_text_lengths;
use crate::calendar::CivilTime;
use crate::calendar::Timestamp;
use vstd::prelude::*;

verus! {

/// The mathematical value of a [`LogPath`]: the file name of the log in
/// three parts. The directory is all that stands before the stem, with the
/// separator that ends it; it is empty for a file name without a directory.
pub struct LogPathView {
    pub directory: Seq<char>,
    pub stem: Seq<char>,
    pub extension: Seq<char>,
}

/// The file name that a log path was taken from: the directory, the stem, a
/// dot and the extension.
pub open spec fn file_name(path: LogPathView) -> Seq<char> {
    path.directory + path.stem + seq!['.'] + path.extension
}

/// The name of the file of a day: the file name of the log with the day put
/// between stem and extension, a dot before it and one behind it.
pub open spec fn dated_name(path: LogPathView, now: CivilTime) -> Seq<char> {
    path.directory + path.stem + seq!['.'] + date_text(now) + seq!['.'] + path.extension
}

/// The name under which the file of a day is kept when a new one is begun
/// on that day: the time of the move stands behind the day.
pub open spec fn backup_name(path: LogPathView, now: CivilTime) -> Seq<char> {
    path.directory + path.stem + seq!['.'] + date_text(now) + "_backup_"@ + dashed_time_text(now)
        + seq!['.'] + path.extension
}

/// Where the last dot of `text` stands; -1 where it has none.
pub open spec fn last_dot(text: Seq<char>) -> int
    decreases text.len(),
{
    if text.len() == 0 {
        -1
    } else if text.last() == '.' {
        text.len() - 1
    } else {
        last_dot(text.drop_last())
    }
}

/// Whether `name` is a file name without a directory: it holds none of the
/// characters that part a directory, a drive or a scheme from what follows
/// on one platform or another.
pub open spec fn is_plain_name(name: Seq<char>) -> bool {
    !name.contains('/') && !name.contains('\\') && !name.contains(':')
}

/// Whether a name without a directory has a stem and an extension: it has a
/// dot that is not its first character, and it is not `..`, which names the
/// directory above.
pub open spec fn has_extension(name: Seq<char>) -> bool {
    last_dot(name) > 0 && name != seq!['.', '.']
}

/// The log path of a name without a directory: the stem is what stands
/// before the last dot, the extension what follows it.
pub open spec fn plain_path(name: Seq<char>) -> Option<LogPathView> {
    if has_extension(name) {
        Some(
            LogPathView {
                directory: Seq::empty(),
                stem: name.take(last_dot(name)),
                extension: name.skip(last_dot(name) + 1),
            },
        )
    } else {
        None
    }
}

/// The log path of a file name whose stem and extension were found, if they
/// were: the file name has to end in the stem, a dot and the extension, and
/// the directory is what stands before them.
pub open spec fn parted(
    filename: Seq<char>,
    stem: Option<Seq<char>>,
    extension: Option<Seq<char>>,
) -> Option<LogPathView> {
    match (stem, extension) {
        (Some(stem), Some(extension)) => {
            let name = stem + seq!['.'] + extension;
            if name.len() <= filename.len() && filename.skip(filename.len() - name.len()) == name {
                Some(
                    LogPathView {
                        directory: filename.take(filename.len() - name.len()),
                        stem,
                        extension,
                    },
                )
            } else {
                None
            }
        },
        _ => None,
    }
}

/// The text of a string that may be missing.
pub open spec fn text_of(given: Option<String>) -> Option<Seq<char>> {
    match given {
        Some(text) => Some(text@),
        None => None,
    }
}

/// The value of a log path that may be missing.
pub open spec fn path_of(given: Option<LogPath>) -> Option<LogPathView> {
    match given {
        Some(path) => Some(path@),
        None => None,
    }
}

/// The last dot of a text is a dot of the text, and no dot follows it.
pub proof fn lemma_last_dot(text: Seq<char>)
    ensures
        -1 <= last_dot(text) < text.len(),
        last_dot(text) >= 0 ==> text[last_dot(text)] == '.',
        forall|i: int| last_dot(text) < i < text.len() ==> text[i] != '.',
    decreases text.len(),
{
    if text.len() > 0 && text.last() != '.' {
        let shorter: Seq<char> = text.drop_last();
        lemma_last_dot(shorter);
        assert forall|i: int| last_dot(text) < i < text.len() implies text[i] != '.' by {
            if i < shorter.len() {
                assert(text[i] == shorter[i]);
            }
        }
    }
}

/// Behind a text and a dot, a text without a dot follows the last dot.
pub proof fn lemma_last_dot_before(head: Seq<char>, tail: Seq<char>)
    requires
        !tail.contains('.'),
    ensures
        last_dot(head + seq!['.'] + tail) == head.len(),
    decreases tail.len(),
{
    let whole: Seq<char> = head + seq!['.'] + tail;
    if tail.len() == 0 {
        assert(whole.last() == '.');
    } else {
        let shorter: Seq<char> = tail.drop_last();
        assert(tail[tail.len() - 1] != '.');
        assert forall|i: int| 0 <= i < shorter.len() implies shorter[i] != '.' by {
            assert(shorter[i] == tail[i]);
        }
        lemma_last_dot_before(head, shorter);
        assert(whole.drop_last() == head + seq!['.'] + shorter);
        assert(whole.last() == tail.last());
    }
}

/// The parts of the log's file name.
pub struct LogPath {
    directory: String,
    stem: String,
    extension: String,
}

impl View for LogPath {
    type V = LogPathView;

    closed spec fn view(&self) -> LogPathView {
        LogPathView { directory: self.directory@, stem: self.stem@, extension: self.extension@ }
    }
}

/// Calls `Path::file_stem` on a path given as text.
///
/// Trusted, of a name without a directory that has a dot behind its first
/// character and is not `..`: the stem is what stands before the last dot.
/// Of any other text nothing is claimed: what counts as the file name of a
/// path is the platform's to say.
#[verifier::external_body]
fn path_file_stem(filename: &str) -> (stem: Option<String>)
    ensures
        is_plain_name(filename@) && has_extension(filename@) ==> text_of(stem) == Some(
            filename@.take(last_dot(filename@)),
        ),
{
    let stem = std::path::Path::new(filename).file_stem()?;
    Some(stem.to_str()?.to_string())
}

/// Calls `Path::extension` on a path given as text.
///
/// Trusted: an extension is what follows the last dot of the file name, so
/// it holds no dot itself. Of a name without a directory: there is an
/// extension exactly where the name has a dot behind its first character
/// and is not `..`, and it is what follows the last dot. Of a text with a
/// directory no more is claimed: what counts as the file name of a path is
/// the platform's to say.
#[verifier::external_body]
fn path_extension(filename: &str) -> (extension: Option<String>)
    ensures
        extension matches Some(found) ==> !found@.contains('.'),
        is_plain_name(filename@) ==> text_of(extension) == (if has_extension(filename@) {
            Some(filename@.skip(last_dot(filename@) + 1))
        } else {
            None
        }),
{
    let extension = std::path::Path::new(filename).extension()?;
    Some(extension.to_str()?.to_string())
}

impl LogPath {
    /// The log path of a file without a directory, with the given stem and
    /// extension.
    pub fn new(stem: &str, extension: &str) -> (path: LogPath)
        ensures
            path@ == (LogPathView {
                directory: Seq::empty(),
                stem: stem@,
                extension: extension@,
            }),
    {
        LogPath { directory: String::new(), stem: stem.to_owned(), extension: extension.to_owned() }
    }

    /// The log path of a file in a directory. The directory is given with
    /// the separator that ends it, as in `logs/`.
    pub fn within(directory: &str, stem: &str, extension: &str) -> (path: LogPath)
        ensures
            path@ == (LogPathView {
                directory: directory@,
                stem: stem@,
                extension: extension@,
            }),
    {
        LogPath {
            directory: directory.to_owned(),
            stem: stem.to_owned(),
            extension: extension.to_owned(),
        }
    }

    /// The log path of a file name whose stem and extension were looked for.
    ///
    /// There is one where both were found and the file name ends in them,
    /// with a dot between them: what stands before is the directory.
    pub fn from_parts(filename: &str, stem: Option<String>, extension: Option<String>) -> (path:
        Option<LogPath>)
        ensures
            path_of(path) == parted(filename@, text_of(stem), text_of(extension)),
    {
        let stem: String = match stem {
            Some(found) => found,
            None => {
                return None;
            },
        };
        let extension: String = match extension {
            Some(found) => found,
            None => {
                return None;
            },
        };
        let mut name: String = stem.clone();
        proof {
            reveal_strlit(".");
        }
        name.append(".");
        name.append(extension.as_str());
        assert(name@ == stem@ + seq!['.'] + extension@);
        let total: usize = filename.unicode_len();
        let length: usize = name.as_str().unicode_len();
        if length > total {
            return None;
        }
        let end: String = filename.substring_char(total - length, total).to_owned();
        assert(end@ == filename@.skip(total - length));
        if end != name {
            return None;
        }
        let directory: String = filename.substring_char(0, total - length).to_owned();
        assert(directory@ == filename@.take(total - length));
        Some(LogPath { directory, stem, extension })
    }

    /// The log path of a file name, as the platform takes the name apart.
    ///
    /// A name without a directory has a log path where it has a dot behind
    /// its first character, and is not `..`: the stem is what stands before
    /// the last dot, the extension what follows it. Where a name with a
    /// directory has a log path, its three parts spell the name, and the
    /// extension holds no dot; whether it has one, and where the directory
    /// ends, is the platform's to say.
    pub fn from_filename(filename: &str) -> (path: Option<LogPath>)
        ensures
            path matches Some(found) ==> file_name(found@) == filename@ && !found@.extension.contains(
                '.',
            ),
            is_plain_name(filename@) ==> path_of(path) == plain_path(filename@),
    {
        let stem: Option<String> = path_file_stem(filename);
        let extension: Option<String> = path_extension(filename);
        proof {
            lemma_last_dot(filename@);
            if is_plain_name(filename@) && has_extension(filename@) {
                let cut: int = last_dot(filename@);
                let name: Seq<char> = filename@.take(cut) + seq!['.'] + filename@.skip(cut + 1);
                assert(name == filename@);
                assert(filename@.skip(0) == filename@);
                assert(filename@.take(0) == Seq::<char>::empty());
            }
            match parted(filename@, text_of(stem), text_of(extension)) {
                Some(found) => {
                    let name: Seq<char> = found.stem + seq!['.'] + found.extension;
                    assert(filename@ == filename@.take(filename@.len() - name.len())
                        + filename@.skip(filename@.len() - name.len()));
                    assert(found.directory + name == found.directory + found.stem + seq!['.']
                        + found.extension);
                },
                None => {},
            }
        }
        LogPath::from_parts(filename, stem, extension)
    }

    /// The directory: what stands before the stem in the file name.
    pub fn directory(&self) -> (directory: &str)
        ensures
            directory@ == self@.directory,
    {
        self.directory.as_str()
    }

    /// The stem.
    pub fn stem(&self) -> (stem: &str)
        ensures
            stem@ == self@.stem,
    {
        self.stem.as_str()
    }

    /// The extension.
    pub fn extension(&self) -> (extension: &str)
        ensures
            extension@ == self@.extension,
    {
        self.extension.as_str()
    }

    /// The same path once more.
    pub fn duplicate(&self) -> (copy: LogPath)
        ensures
            copy@ == self@,
    {
        LogPath {
            directory: self.directory.clone(),
            stem: self.stem.clone(),
            extension: self.extension.clone(),
        }
    }

    /// The directory, the stem, a dot and the day.
    fn dated_stem(&self, now: &Timestamp) -> (name: String)
        ensures
            now@.is_moment(),
            name@ == self@.directory + self@.stem + seq!['.'] + date_text(now@),
    {
        let today: String = now.format_date();
        let mut name: String = self.directory.clone();
        proof {
            reveal_strlit(".");
        }
        name.append(self.stem.as_str());
        name.append(".");
        name.append(today.as_str());
        name
    }

    /// The name of the file of the day of `now`.
    pub fn dated_name(&self, now: &Timestamp) -> (name: String)
        ensures
            name@ == dated_name(self@, now@),
    {
        let mut name: String = self.dated_stem(now);
        proof {
            reveal_strlit(".");
        }
        name.append(".");
        name.append(self.extension.as_str());
        name
    }

    /// The name under which the file of the day of `now` is kept when it is
    /// moved out of the way at `now`.
    pub fn backup_name(&self, now: &Timestamp) -> (name: String)
        ensures
            name@ == backup_name(self@, now@),
    {
        let clock: String = now.format_time_dashed();
        let mut name: String = self.dated_stem(now);
        proof {
            reveal_strlit(".");
        }
        name.append("_backup_");
        name.append(clock.as_str());
        name.append(".");
        name.append(self.extension.as_str());
        name
    }
}

/// The mathematical value of a [`FileLogger`]: the path, and the day of the
/// file that is open, as it is written in the file's name.
pub struct LoggerView {
    pub path: LogPathView,
    pub file_timestamp: Seq<char>,
}

/// The state of a log that starts a new file every day.
pub struct FileLogger {
    path: LogPath,
    file_timestamp: String,
}

impl View for FileLogger {
    type V = LoggerView;

    closed spec fn view(&self) -> LoggerView {
        LoggerView { path: self.path@, file_timestamp: self.file_timestamp@ }
    }
}

/// A file to be moved to another name.
pub struct Rename {
    pub from: String,
    pub to: String,
}

/// What is to be done to open the log.
pub struct OpenPlan {
    /// The file to move out of the way first, if there is one.
    pub backup: Option<Rename>,
    /// The file to open then: to be created where it is missing, and
    /// appended to.
    pub file_name: String,
    /// The logger, once the file is open.
    pub logger: FileLogger,
}

/// What is to be done to write a line.
pub struct WritePlan {
    /// The file to switch to first, if the day has changed: to be created
    /// where it is missing, and appended to.
    pub reopen: Option<String>,
    /// The text to append to the open file then.
    pub line: String,
    /// The logger, once the right file is open.
    pub logger: FileLogger,
}

/// The mathematical value of an [`OpenPlan`]; a move is written as the old
/// name and the new one.
pub struct OpenPlanView {
    pub backup: Option<(Seq<char>, Seq<char>)>,
    pub file_name: Seq<char>,
    pub logger: LoggerView,
}

/// The mathematical value of a [`WritePlan`].
pub struct WritePlanView {
    pub reopen: Option<Seq<char>>,
    pub line: Seq<char>,
    pub logger: LoggerView,
}

impl View for OpenPlan {
    type V = OpenPlanView;

    open spec fn view(&self) -> OpenPlanView {
        OpenPlanView {
            backup: match self.backup {
                Some(rename) => Some((rename.from@, rename.to@)),
                None => None,
            },
            file_name: self.file_name@,
            logger: self.logger@,
        }
    }
}

impl View for WritePlan {
    type V = WritePlanView;

    open spec fn view(&self) -> WritePlanView {
        WritePlanView {
            reopen: match self.reopen {
                Some(name) => Some(name@),
                None => None,
            },
            line: self.line@,
            logger: self.logger@,
        }
    }
}

/// How the log is opened at `now`: the file of the day is opened, after the
/// file that has its name, if there is one, was moved to the backup name.
pub open spec fn open_plan(path: LogPathView, now: CivilTime, occupied: bool) -> OpenPlanView {
    OpenPlanView {
        backup: if occupied {
            Some((dated_name(path, now), backup_name(path, now)))
        } else {
            None
        },
        file_name: dated_name(path, now),
        logger: LoggerView { path, file_timestamp: date_text(now) },
    }
}

/// How a line is written at `now`: the text and a line feed are appended,
/// after the file of the day was opened if the open file is of another day.
pub open spec fn write_plan(logger: LoggerView, text: Seq<char>, now: CivilTime) -> WritePlanView {
    WritePlanView {
        reopen: if date_text(now) != logger.file_timestamp {
            Some(dated_name(logger.path, now))
        } else {
            None
        },
        line: text + seq!['\n'],
        logger: LoggerView { path: logger.path, file_timestamp: date_text(now) },
    }
}

impl FileLogger {
    /// The path of the log.
    pub fn path(&self) -> (path: &LogPath)
        ensures
            path@ == self@.path,
    {
        &self.path
    }

    /// The day of the file that is open, as `YYYY-MM-DD`.
    pub fn file_timestamp(&self) -> (day: &str)
        ensures
            day@ == self@.file_timestamp,
    {
        self.file_timestamp.as_str()
    }

    /// Plans the opening of the log at `now`.
    ///
    /// The file to open is the one of today. `occupied` says whether a file
    /// of that name exists already: if so, it is first moved to a name that
    /// holds the time of day as well, so that what it holds is not written
    /// over. There is one such name for every second: a file that stands
    /// under it already, from an opening within the same second, is replaced
    /// by the move.
    pub fn open(path: LogPath, now: &Timestamp, occupied: bool) -> (plan: OpenPlan)
        ensures
            plan@ == open_plan(path@, now@, occupied),
    {
        let timestamp: String = now.format_date();
        let file_name: String = path.dated_name(now);
        let backup: Option<Rename> = if occupied {
            Some(Rename { from: file_name.clone(), to: path.backup_name(now) })
        } else {
            None
        };
        OpenPlan { backup, file_name, logger: FileLogger { path, file_timestamp: timestamp } }
    }

    /// Plans the writing of a line at `now`.
    ///
    /// Where the day of `now` is not the day of the open file, the file of
    /// the new day is to be opened first; nothing is moved out of the way
    /// for it. The text is appended with a line feed behind it.
    pub fn write_line(&self, s: &str, now: &Timestamp) -> (plan: WritePlan)
        ensures
            plan@ == write_plan(self@, s@, now@),
    {
        let today: String = now.format_date();
        let reopen: Option<String> = if today != self.file_timestamp {
            Some(self.path.dated_name(now))
        } else {
            None
        };
        let mut line: String = s.to_owned();
        proof {
            reveal_strlit("\n");
        }
        line.append("\n");
        assert(line@ == s@ + seq!['\n']);
        WritePlan {
            reopen,
            line,
            logger: FileLogger { path: self.path.duplicate(), file_timestamp: today },
        }
    }
}

/// The name that a day's file is moved to is never the name of that day's
/// file: the new file and the backup are two files.
pub proof fn lemma_backup_is_another_file(path: LogPathView, now: CivilTime)
    ensures
        backup_name(path, now) != dated_name(path, now),
{
    lemma_text_lengths(now);
    reveal_strlit("_backup_");
    assert(backup_name(path, now).len() == path.directory.len() + path.stem.len() + 1 + 10 + 8
        + 8 + 1 + path.extension.len());
    assert(dated_name(path, now).len() == path.directory.len() + path.stem.len() + 1 + 10 + 1
        + path.extension.len());
}

/// Two moments have the same file exactly when they fall on the same day.
pub proof fn lemma_each_day_has_its_file(path: LogPathView, a: CivilTime, b: CivilTime)
    requires
        a.is_moment(),
        b.is_moment(),
    ensures
        dated_name(path, a) == dated_name(path, b) <==> a.same_day(b),
{
    lemma_text_lengths(a);
    lemma_text_lengths(b);
    lemma_date_text_tells_day(a, b);
    let from: int = path.directory.len() as int + path.stem.len() + 1;
    assert(dated_name(path, a).subrange(from, from + 10) == date_text(a));
    assert(dated_name(path, b).subrange(from, from + 10) == date_text(b));
}

/// The names that are built on a log path keep what the file name has
/// around its last dot, where the extension holds no dot: they begin as the
/// file name does, directory and stem, and they end in its extension. The
/// day, and the time of a backup, stand between the two.
pub proof fn lemma_names_are_siblings(path: LogPathView, now: CivilTime)
    requires
        !path.extension.contains('.'),
    ensures
        ({
            let name = file_name(path);
            let front = name.take(last_dot(name));
            let back = name.skip(last_dot(name) + 1);
            &&& front == path.directory + path.stem
            &&& back == path.extension
            &&& dated_name(path, now) == front + seq!['.'] + date_text(now) + seq!['.'] + back
            &&& backup_name(path, now) == front + seq!['.'] + date_text(now) + "_backup_"@
                + dashed_time_text(now) + seq!['.'] + back
            &&& last_dot(dated_name(path, now)) == dated_name(path, now).len() - back.len() - 1
            &&& last_dot(backup_name(path, now)) == backup_name(path, now).len() - back.len() - 1
        }),
{
    let head: Seq<char> = path.directory + path.stem;
    let name: Seq<char> = file_name(path);
    lemma_last_dot_before(head, path.extension);
    assert(name == head + seq!['.'] + path.extension);
    assert(name.take(head.len() as int) == head);
    assert(name.skip(head.len() as int + 1) == path.extension);
    let dated_head: Seq<char> = head + seq!['.'] + date_text(now);
    lemma_last_dot_before(dated_head, path.extension);
    assert(dated_name(path, now) == dated_head + seq!['.'] + path.extension);
    let backup_head: Seq<char> = head + seq!['.'] + date_text(now) + "_backup_"@
        + dashed_time_text(now);
    lemma_last_dot_before(backup_head, path.extension);
    assert(backup_name(path, now) == backup_head + seq!['.'] + path.extension);
}

/// The files of a directory, as far as the log is concerned: the text in
/// each, by name, and the name of the one that is open for appending.
pub struct Directory {
    pub files: Map<Seq<char>, Seq<char>>,
    pub open: Seq<char>,
}

/// The files after `name` was opened for appending: it is there, and empty
/// if it was not there before.
pub open spec fn with_file(files: Map<Seq<char>, Seq<char>>, name: Seq<char>) -> Map<
    Seq<char>,
    Seq<char>,
> {
    if files.contains_key(name) {
        files
    } else {
        files.insert(name, Seq::empty())
    }
}

/// The directory after an [`OpenPlan`] was carried out on `files`.
pub open spec fn opened(files: Map<Seq<char>, Seq<char>>, plan: OpenPlanView) -> Directory {
    let cleared = match plan.backup {
        Some((from, to)) => files.remove(from).insert(to, files[from]),
        None => files,
    };
    Directory { files: with_file(cleared, plan.file_name), open: plan.file_name }
}

/// The directory after a [`WritePlan`] was carried out on it.
pub open spec fn written(before: Directory, plan: WritePlanView) -> Directory {
    let switched = match plan.reopen {
        Some(name) => Directory { files: with_file(before.files, name), open: name },
        None => before,
    };
    Directory {
        files: switched.files.insert(switched.open, switched.files[switched.open] + plan.line),
        open: switched.open,
    }
}

/// Opening the log where today's file exists keeps what was logged: the
/// backup holds what the file held, the file that is opened is another one
/// and empty, and no other file is touched.
pub proof fn lemma_open_keeps_the_old_log(
    files: Map<Seq<char>, Seq<char>>,
    path: LogPathView,
    now: CivilTime,
)
    requires
        files.contains_key(dated_name(path, now)),
    ensures
        ({
            let after = opened(files, open_plan(path, now, true));
            &&& after.open == dated_name(path, now)
            &&& after.open != backup_name(path, now)
            &&& after.files.contains_key(backup_name(path, now))
            &&& after.files[backup_name(path, now)] == files[dated_name(path, now)]
            &&& after.files.contains_key(after.open)
            &&& after.files[after.open] == Seq::<char>::empty()
            &&& forall|name: Seq<char>|
                name != dated_name(path, now) && name != backup_name(path, now) ==> (
                after.files.contains_key(name) <==> files.contains_key(name)) && after.files[name]
                    == files[name]
        }),
{
    lemma_backup_is_another_file(path, now);
}

/// Opening the log where today's file does not exist creates it empty and
/// touches no other file.
pub proof fn lemma_open_creates_the_log(
    files: Map<Seq<char>, Seq<char>>,
    path: LogPathView,
    now: CivilTime,
)
    requires
        !files.contains_key(dated_name(path, now)),
    ensures
        ({
            let after = opened(files, open_plan(path, now, false));
            &&& after.open == dated_name(path, now)
            &&& after.files == files.insert(after.open, Seq::empty())
        }),
{
}

/// A line that is written on the day of the open file is appended to that
/// file, and no other file is touched.
pub proof fn lemma_same_day_same_file(
    before: Directory,
    logger: LoggerView,
    text: Seq<char>,
    opened_at: CivilTime,
    now: CivilTime,
)
    requires
        opened_at.is_moment(),
        now.is_moment(),
        opened_at.same_day(now),
        logger.file_timestamp == date_text(opened_at),
        before.open == dated_name(logger.path, opened_at),
        before.files.contains_key(before.open),
    ensures
        ({
            let plan = write_plan(logger, text, now);
            let after = written(before, plan);
            &&& plan.reopen is None
            &&& plan.logger == logger
            &&& after.open == before.open
            &&& after.files == before.files.insert(
                before.open,
                before.files[before.open] + text + seq!['\n'],
            )
        }),
{
    lemma_date_text_tells_day(opened_at, now);
    assert(before.files[before.open] + (text + seq!['\n']) == before.files[before.open] + text
        + seq!['\n']);
}

/// A line that is written on another day than the one of the open file goes
/// to the file of its own day: that is another file, the line is appended to
/// what it held, and the file of the day before keeps what it had.
pub proof fn lemma_next_day_next_file(
    before: Directory,
    logger: LoggerView,
    text: Seq<char>,
    opened_at: CivilTime,
    now: CivilTime,
)
    requires
        opened_at.is_moment(),
        now.is_moment(),
        !opened_at.same_day(now),
        logger.file_timestamp == date_text(opened_at),
        before.open == dated_name(logger.path, opened_at),
        before.files.contains_key(before.open),
    ensures
        ({
            let plan = write_plan(logger, text, now);
            let after = written(before, plan);
            let held = if before.files.contains_key(dated_name(logger.path, now)) {
                before.files[dated_name(logger.path, now)]
            } else {
                Seq::<char>::empty()
            };
            &&& plan.reopen == Some(dated_name(logger.path, now))
            &&& plan.logger.file_timestamp == date_text(now)
            &&& after.open == dated_name(logger.path, now)
            &&& after.open != before.open
            &&& after.files[after.open] == held + text + seq!['\n']
            &&& after.files.contains_key(before.open)
            &&& after.files[before.open] == before.files[before.open]
        }),
{
    lemma_date_text_tells_day(opened_at, now);
    lemma_each_day_has_its_file(logger.path, opened_at, now);
    let held = if before.files.contains_key(dated_name(logger.path, now)) {
        before.files[dated_name(logger.path, now)]
    } else {
        Seq::<char>::empty()
    };
    assert(held + (text + seq!['\n']) == held + text + seq!['\n']);
}

} // verus!
