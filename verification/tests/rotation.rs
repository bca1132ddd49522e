use s7log::calendar::Timestamp;
use s7log::file_logger::FileLogger;
use s7log::file_logger::LogPath;
use s7log::file_logger::OpenPlan;
use s7log::file_logger::WritePlan;
use std::collections::BTreeMap;

/// A directory in memory, with one file open for appending.
struct Directory {
    files: BTreeMap<String, String>,
    open: String,
}

fn carry_out_open(files: BTreeMap<String, String>, plan: &OpenPlan) -> Directory {
    let mut files = files;
    if let Some(rename) = &plan.backup {
        let content = files.remove(&rename.from).unwrap();
        files.insert(rename.to.clone(), content);
    }
    files.entry(plan.file_name.clone()).or_insert_with(String::new);
    Directory { files, open: plan.file_name.clone() }
}

fn carry_out_write(directory: &mut Directory, plan: &WritePlan) {
    if let Some(name) = &plan.reopen {
        directory.files.entry(name.clone()).or_insert_with(String::new);
        directory.open = name.clone();
    }
    directory.files.get_mut(&directory.open).unwrap().push_str(&plan.line);
}

fn at(day: u32, hour: u32, minute: u32, second: u32) -> Timestamp {
    Timestamp::new(2021, 3, day, hour, minute, second, 0).unwrap()
}

#[test]
fn a_file_name_has_a_stem_and_an_extension() {
    let path = LogPath::from_filename("autoid_log.csv").unwrap();
    assert_eq!(path.stem(), "autoid_log");
    assert_eq!(path.extension(), "csv");
    let path = LogPath::from_filename("archive.tar.gz").unwrap();
    assert_eq!(path.stem(), "archive.tar");
    assert_eq!(path.extension(), "gz");
}

#[test]
fn the_directory_of_a_file_name_is_kept() {
    let path = LogPath::from_filename("logs/plc/autoid_log.csv").unwrap();
    assert_eq!(path.directory(), "logs/plc/");
    assert_eq!(path.stem(), "autoid_log");
    assert_eq!(path.extension(), "csv");
    assert_eq!(path.dated_name(&at(4, 5, 6, 7)), "logs/plc/autoid_log.2021-03-04.csv");
    assert_eq!(
        path.backup_name(&at(4, 5, 6, 7)),
        "logs/plc/autoid_log.2021-03-04_backup_05-06-07.csv"
    );
    let path = LogPath::from_filename("/var/log/run.csv").unwrap();
    assert_eq!(path.directory(), "/var/log/");
    assert_eq!(path.dated_name(&at(4, 5, 6, 7)), "/var/log/run.2021-03-04.csv");
    let path = LogPath::from_filename("logs.d/v1.2/run.tar.gz").unwrap();
    assert_eq!(path.directory(), "logs.d/v1.2/");
    assert_eq!(path.stem(), "run.tar");
    assert_eq!(path.extension(), "gz");
}

#[test]
fn a_file_name_without_a_directory_has_none() {
    let path = LogPath::from_filename("autoid_log.csv").unwrap();
    assert_eq!(path.directory(), "");
    let path = LogPath::new("plc", "txt");
    assert_eq!(path.directory(), "");
    let path = LogPath::within("logs/", "plc", "txt");
    assert_eq!(path.directory(), "logs/");
    assert_eq!(path.dated_name(&at(4, 5, 6, 7)), "logs/plc.2021-03-04.txt");
    assert_eq!(path.duplicate().directory(), "logs/");
}

#[test]
fn a_file_name_that_does_not_end_in_its_file_is_no_log_path() {
    assert!(LogPath::from_filename("logs/run.csv/").is_none());
    assert!(LogPath::from_filename("logs/run.csv/.").is_none());
    assert!(LogPath::from_filename("logs/run.csv/..").is_none());
}

fn plain_path(name: &str) -> Option<(String, String)> {
    let chars: Vec<char> = name.chars().collect();
    let cut = chars.iter().rposition(|c| *c == '.')?;
    if cut == 0 || name == ".." {
        return None;
    }
    Some((chars[..cut].iter().collect(), chars[cut + 1..].iter().collect()))
}

#[test]
fn a_name_without_a_directory_is_cut_at_its_last_dot() {
    let alphabet = ['.', 'a', ' ', '\u{e9}', '-'];
    let mut names: Vec<String> = vec![String::new()];
    let mut from = 0;
    for _ in 0..5 {
        let until = names.len();
        for index in from..until {
            for c in alphabet {
                let mut longer = names[index].clone();
                longer.push(c);
                names.push(longer);
            }
        }
        from = until;
    }
    assert_eq!(names.len(), 1 + 5 + 25 + 125 + 625 + 3125);
    for name in names {
        let found = LogPath::from_filename(&name);
        match plain_path(&name) {
            Some((stem, extension)) => {
                let found = found.unwrap();
                assert_eq!(found.directory(), "", "{:?}", name);
                assert_eq!(found.stem(), stem, "{:?}", name);
                assert_eq!(found.extension(), extension, "{:?}", name);
            }
            None => assert!(found.is_none(), "{:?}", name),
        }
    }
}

#[test]
fn the_parts_of_a_log_path_spell_its_file_name() {
    let names = [
        "autoid_log.csv",
        "logs/plc/autoid_log.csv",
        "./run.csv",
        "../run.csv",
        "a/b.c/d.e.f",
        "//server/share/run.csv",
        "dir\\run.csv",
        "C:run.csv",
    ];
    for name in names {
        let path = LogPath::from_filename(name).unwrap();
        let spelled = format!("{}{}.{}", path.directory(), path.stem(), path.extension());
        assert_eq!(spelled, name);
        assert!(!path.extension().contains('.'));
        let cut = name.rfind('.').unwrap();
        let dated = path.dated_name(&at(4, 5, 6, 7));
        assert_eq!(dated, format!("{}.2021-03-04.{}", &name[..cut], &name[cut + 1..]));
        let backup = path.backup_name(&at(4, 5, 6, 7));
        assert_eq!(
            backup,
            format!("{}.2021-03-04_backup_05-06-07.{}", &name[..cut], &name[cut + 1..])
        );
    }
}

#[test]
fn a_file_name_without_an_extension_is_no_log_path() {
    assert!(LogPath::from_filename("autoid_log").is_none());
    assert!(LogPath::from_filename("").is_none());
    assert!(LogPath::from_filename(".hidden").is_none());
    assert!(LogPath::from_filename("logs/").is_none());
}

#[test]
fn a_log_path_keeps_what_it_was_made_of() {
    let path = LogPath::new("plc", "txt");
    assert_eq!(path.stem(), "plc");
    assert_eq!(path.extension(), "txt");
    let copy = path.duplicate();
    assert_eq!(copy.stem(), "plc");
    assert_eq!(copy.extension(), "txt");
}

#[test]
fn the_day_stands_between_stem_and_extension() {
    let path = LogPath::new("autoid_log", "csv");
    assert_eq!(path.dated_name(&at(4, 5, 6, 7)), "autoid_log.2021-03-04.csv");
    assert_eq!(path.dated_name(&at(31, 23, 59, 59)), "autoid_log.2021-03-31.csv");
    assert_eq!(LogPath::new("", "").dated_name(&at(4, 5, 6, 7)), ".2021-03-04.");
}

#[test]
fn a_backup_holds_the_time_of_day() {
    let path = LogPath::new("autoid_log", "csv");
    assert_eq!(
        path.backup_name(&at(4, 5, 6, 7)),
        "autoid_log.2021-03-04_backup_05-06-07.csv"
    );
}

#[test]
fn opening_where_no_file_is_moves_nothing() {
    let plan = FileLogger::open(LogPath::new("autoid_log", "csv"), &at(4, 5, 6, 7), false);
    assert!(plan.backup.is_none());
    assert_eq!(plan.file_name, "autoid_log.2021-03-04.csv");
    assert_eq!(plan.logger.file_timestamp(), "2021-03-04");
    assert_eq!(plan.logger.path().stem(), "autoid_log");
    assert_eq!(plan.logger.path().extension(), "csv");
}

#[test]
fn opening_where_a_file_is_moves_it_out_of_the_way() {
    let plan = FileLogger::open(LogPath::new("autoid_log", "csv"), &at(4, 5, 6, 7), true);
    let rename = plan.backup.unwrap();
    assert_eq!(rename.from, "autoid_log.2021-03-04.csv");
    assert_eq!(rename.to, "autoid_log.2021-03-04_backup_05-06-07.csv");
    assert_eq!(plan.file_name, "autoid_log.2021-03-04.csv");
    assert_ne!(rename.to, plan.file_name);
    assert_eq!(plan.logger.file_timestamp(), "2021-03-04");
}

#[test]
fn a_line_on_the_same_day_goes_to_the_open_file() {
    let logger = FileLogger::open(LogPath::new("autoid_log", "csv"), &at(4, 5, 6, 7), false).logger;
    let plan = logger.write_line("time, data", &at(4, 23, 59, 59));
    assert!(plan.reopen.is_none());
    assert_eq!(plan.line, "time, data\n");
    assert_eq!(plan.logger.file_timestamp(), "2021-03-04");
}

#[test]
fn a_line_on_another_day_goes_to_a_new_file() {
    let logger = FileLogger::open(LogPath::new("autoid_log", "csv"), &at(4, 5, 6, 7), false).logger;
    let plan = logger.write_line("x", &at(5, 0, 0, 1));
    assert_eq!(plan.reopen.unwrap(), "autoid_log.2021-03-05.csv");
    assert_eq!(plan.line, "x\n");
    assert_eq!(plan.logger.file_timestamp(), "2021-03-05");
    assert_eq!(plan.logger.path().stem(), "autoid_log");
    let plan = plan.logger.write_line("y", &at(5, 0, 0, 2));
    assert!(plan.reopen.is_none());
}

#[test]
fn an_empty_line_is_a_line_feed() {
    let logger = FileLogger::open(LogPath::new("a", "b"), &at(4, 5, 6, 7), false).logger;
    assert_eq!(logger.write_line("", &at(4, 5, 6, 8)).line, "\n");
}

#[test]
fn what_was_logged_before_is_kept_in_a_backup() {
    let mut before: BTreeMap<String, String> = BTreeMap::new();
    before.insert("autoid_log.2021-03-04.csv".to_string(), "old line\n".to_string());
    let path = LogPath::from_filename("autoid_log.csv").unwrap();
    let now = at(4, 5, 6, 7);
    let occupied = before.contains_key(&path.dated_name(&now));
    assert!(occupied);
    let plan = FileLogger::open(path, &now, occupied);
    let mut directory = carry_out_open(before, &plan);
    assert_eq!(directory.files.len(), 2);
    assert_eq!(directory.files["autoid_log.2021-03-04_backup_05-06-07.csv"], "old line\n");
    assert_eq!(directory.files["autoid_log.2021-03-04.csv"], "");
    let write = plan.logger.write_line("new line", &at(4, 5, 6, 8));
    carry_out_write(&mut directory, &write);
    assert_eq!(directory.files["autoid_log.2021-03-04_backup_05-06-07.csv"], "old line\n");
    assert_eq!(directory.files["autoid_log.2021-03-04.csv"], "new line\n");
}

#[test]
fn each_day_has_the_lines_that_were_written_on_it() {
    let path = LogPath::from_filename("autoid_log.csv").unwrap();
    let plan = FileLogger::open(path, &at(4, 23, 59, 58), false);
    let mut directory = carry_out_open(BTreeMap::new(), &plan);
    let first = plan.logger.write_line("before midnight", &at(4, 23, 59, 59));
    carry_out_write(&mut directory, &first);
    let second = first.logger.write_line("after midnight", &at(5, 0, 0, 1));
    carry_out_write(&mut directory, &second);
    let third = second.logger.write_line("later", &at(5, 12, 0, 0));
    carry_out_write(&mut directory, &third);
    assert_eq!(directory.files.len(), 2);
    assert_eq!(directory.files["autoid_log.2021-03-04.csv"], "before midnight\n");
    assert_eq!(directory.files["autoid_log.2021-03-05.csv"], "after midnight\nlater\n");
    assert_eq!(directory.open, "autoid_log.2021-03-05.csv");
}

#[test]
fn a_rollover_appends_to_a_file_that_is_there() {
    let mut before: BTreeMap<String, String> = BTreeMap::new();
    before.insert("autoid_log.2021-03-05.csv".to_string(), "kept\n".to_string());
    let plan = FileLogger::open(LogPath::new("autoid_log", "csv"), &at(4, 12, 0, 0), false);
    let mut directory = carry_out_open(before, &plan);
    let write = plan.logger.write_line("added", &at(5, 0, 0, 0));
    carry_out_write(&mut directory, &write);
    assert_eq!(directory.files["autoid_log.2021-03-05.csv"], "kept\nadded\n");
    assert_eq!(directory.files["autoid_log.2021-03-04.csv"], "");
    assert_eq!(directory.files.len(), 2);
}

#[test]
fn a_log_path_needs_both_parts() {
    let stem = || Some("plc".to_string());
    let extension = || Some("csv".to_string());
    let path = LogPath::from_parts("plc.csv", stem(), extension()).unwrap();
    assert_eq!(path.directory(), "");
    assert_eq!(path.stem(), "plc");
    assert_eq!(path.extension(), "csv");
    assert!(LogPath::from_parts("plc.csv", None, extension()).is_none());
    assert!(LogPath::from_parts("plc.csv", stem(), None).is_none());
    assert!(LogPath::from_parts("plc.csv", None, None).is_none());
}

#[test]
fn a_log_path_needs_a_file_name_that_ends_in_its_parts() {
    let stem = || Some("plc".to_string());
    let extension = || Some("csv".to_string());
    let path = LogPath::from_parts("some/where/plc.csv", stem(), extension()).unwrap();
    assert_eq!(path.directory(), "some/where/");
    let path = LogPath::from_parts("xplc.csv", stem(), extension()).unwrap();
    assert_eq!(path.directory(), "x");
    assert!(LogPath::from_parts("plc.csv/", stem(), extension()).is_none());
    assert!(LogPath::from_parts("lc.csv", stem(), extension()).is_none());
    assert!(LogPath::from_parts("plc_csv", stem(), extension()).is_none());
    assert!(LogPath::from_parts("", stem(), extension()).is_none());
    let path = LogPath::from_parts("gr\u{fc}n/plc.csv", stem(), extension()).unwrap();
    assert_eq!(path.directory(), "gr\u{fc}n/");
}

#[test]
fn an_extension_holds_no_dot() {
    let names = [
        "autoid_log.csv",
        "archive.tar.gz",
        "logs/plc.v2/autoid_log.csv",
        "a.b.c.d",
        "trailing.",
        "..hidden.txt",
    ];
    for name in names {
        let path = LogPath::from_filename(name).unwrap();
        assert!(!path.extension().contains('.'), "{}", name);
        let dated = path.dated_name(&at(4, 5, 6, 7));
        assert_eq!(dated.rsplit('.').next().unwrap(), path.extension(), "{}", name);
        let backup = path.backup_name(&at(4, 5, 6, 7));
        assert_eq!(backup.rsplit('.').next().unwrap(), path.extension(), "{}", name);
    }
}
