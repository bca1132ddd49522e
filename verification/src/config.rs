//! The settings of a logging session: where to connect, where to log, and
//! how the eight analog channels are to be read.

use crate::s7_types::tag_or_int;
use crate::s7_types::S7Type;
use vstd::prelude::*;
use vstd::string::StrSliceExecFns;

verus! {

/// Whether `c` is white space: one of the characters that Unicode lists
/// under that property.
pub open spec fn white_space(c: char) -> bool {
    let code = c as int;
    ||| 0x09 <= code <= 0x0D
    ||| code == 0x20
    ||| code == 0x85
    ||| code == 0xA0
    ||| code == 0x1680
    ||| 0x2000 <= code <= 0x200A
    ||| code == 0x2028
    ||| code == 0x2029
    ||| code == 0x202F
    ||| code == 0x205F
    ||| code == 0x3000
}

/// Whether `c` is white space.
pub fn is_white_space(c: char) -> (r: bool)
    ensures
        r == white_space(c),
{
    let code: u32 = c as u32;
    (0x09 <= code && code <= 0x0D) || code == 0x20 || code == 0x85 || code == 0xA0 || code
        == 0x1680 || (0x2000 <= code && code <= 0x200A) || code == 0x2028 || code == 0x2029
        || code == 0x202F || code == 0x205F || code == 0x3000
}

/// The words of `text`: the runs of characters that are no white space, in
/// the order in which they stand. Read from the front, a character of white
/// space ends the word before it; any other character goes on with the word
/// before it or, behind white space and at the front, begins a new one.
pub open spec fn words(text: Seq<char>) -> Seq<Seq<char>>
    decreases text.len(),
{
    if text.len() == 0 {
        Seq::empty()
    } else {
        let before = words(text.drop_last());
        if white_space(text.last()) {
            before
        } else if text.len() >= 2 && !white_space(text[text.len() - 2]) {
            before.drop_last().push(before.last().push(text.last()))
        } else {
            before.push(seq![text.last()])
        }
    }
}

/// A text that ends in a character that is no white space has a last word.
proof fn lemma_last_word(text: Seq<char>)
    requires
        text.len() > 0,
        !white_space(text.last()),
    ensures
        words(text).len() > 0,
    decreases text.len(),
{
    if text.len() >= 2 && !white_space(text[text.len() - 2]) {
        lemma_last_word(text.drop_last());
    }
}

/// No word is empty, and no word holds white space: however many blanks
/// stand between two words, they leave no word between them.
pub proof fn lemma_words_are_words(text: Seq<char>)
    ensures
        forall|i: int| 0 <= i < words(text).len() ==> (#[trigger] words(text)[i]).len() > 0,
        forall|i: int, j: int|
            0 <= i < words(text).len() && 0 <= j < words(text)[i].len() ==> !white_space(
                #[trigger] words(text)[i][j],
            ),
    decreases text.len(),
{
    if text.len() > 0 {
        let shorter: Seq<char> = text.drop_last();
        lemma_words_are_words(shorter);
        if !white_space(text.last()) && text.len() >= 2 && !white_space(text[text.len() - 2]) {
            lemma_last_word(shorter);
        }
    }
}

/// Cuts a text into its words.
pub fn split_white_space(text: &str) -> (pieces: Vec<String>)
    ensures
        pieces@.len() == words(text@).len(),
        forall|i: int| 0 <= i < pieces@.len() ==> pieces@[i]@ == words(text@)[i],
{
    let total: usize = text.unicode_len();
    let mut pieces: Vec<String> = Vec::new();
    let ghost mut done: Seq<Seq<char>> = Seq::empty();
    let mut start: usize = 0;
    let mut in_word: bool = false;
    let mut at: usize = 0;
    assert(text@.take(0) == Seq::<char>::empty());
    while at < total
        invariant
            total == text@.len(),
            at <= total,
            done.len() == pieces@.len(),
            forall|i: int| 0 <= i < pieces@.len() ==> pieces@[i]@ == done[i],
            in_word ==> start < at && !white_space(text@[at - 1]) && words(
                text@.take(at as int),
            ) == done.push(text@.subrange(start as int, at as int)),
            !in_word ==> (at > 0 ==> white_space(text@[at - 1])) && words(text@.take(at as int))
                == done,
        decreases total - at,
    {
        let c: char = text.get_char(at);
        let ghost shorter: Seq<char> = text@.take(at as int);
        let ghost longer: Seq<char> = text@.take(at + 1);
        proof {
            assert(longer.drop_last() == shorter);
            assert(longer.last() == c);
            assert(at > 0 ==> longer[longer.len() - 2] == text@[at - 1]);
        }
        if is_white_space(c) {
            if in_word {
                let piece: &str = text.substring_char(start, at);
                proof {
                    done = done.push(piece@);
                }
                pieces.push(piece.to_owned());
                in_word = false;
            }
        } else if in_word {
            proof {
                let word: Seq<char> = text@.subrange(start as int, at as int);
                assert(done.push(word).drop_last() == done);
                assert(word.push(c) == text@.subrange(start as int, at + 1));
            }
        } else {
            proof {
                assert(seq![c] == text@.subrange(at as int, at + 1));
            }
            start = at;
            in_word = true;
        }
        at += 1;
    }
    assert(text@.take(total as int) == text@);
    if in_word {
        let piece: &str = text.substring_char(start, total);
        proof {
            done = done.push(piece@);
        }
        pieces.push(piece.to_owned());
    }
    pieces
}

/// Whether `format` is what `text` says of the eight channels: word `i` of
/// the text names the type of channel `i`, and a word that names none stands
/// for `Int`. `None` where the text has fewer than eight words; what follows
/// the eighth is not looked at.
pub open spec fn is_format_of(format: Option<Seq<S7Type>>, text: Seq<char>) -> bool {
    match format {
        Some(types) => {
            &&& words(text).len() >= 8
            &&& types.len() == 8
            &&& forall|i: int| 0 <= i < 8 ==> types[i] == tag_or_int(words(text)[i])
        },
        None => words(text).len() < 8,
    }
}

/// Reads the types of the eight channels from a text such as
/// `int real int int int int int int`. The words may have any white space
/// between them, and any amount of it.
pub fn parse_format(text: &str) -> (format: Option<[S7Type; 8]>)
    ensures
        is_format_of(
            match format {
                Some(types) => Some(types@),
                None => None,
            },
            text@,
        ),
{
    let pieces: Vec<String> = split_white_space(text);
    if pieces.len() < 8 {
        return None;
    }
    let mut types: [S7Type; 8] = [S7Type::Int;8];
    let mut channel: usize = 0;
    while channel < 8
        invariant
            channel <= 8,
            pieces@.len() >= 8,
            pieces@.len() == words(text@).len(),
            forall|i: int| 0 <= i < pieces@.len() ==> pieces@[i]@ == words(text@)[i],
            forall|i: int| 0 <= i < channel ==> types@[i] == tag_or_int(words(text@)[i]),
        decreases 8 - channel,
    {
        let tag: S7Type = S7Type::from_str_or_int(pieces[channel].as_str());
        types[channel] = tag;
        channel += 1;
    }
    Some(types)
}

/// The mathematical value of an [`AppConfig`].
pub struct ConfigView {
    pub ip: Seq<char>,
    pub port: Seq<char>,
    pub filename: Seq<char>,
    pub header: Seq<char>,
    pub format: Seq<S7Type>,
}

/// The settings of a session.
pub struct AppConfig {
    pub ip: String,
    pub port: String,
    pub filename: String,
    pub header: String,
    pub format: [S7Type; 8],
}

impl View for AppConfig {
    type V = ConfigView;

    open spec fn view(&self) -> ConfigView {
        ConfigView {
            ip: self.ip@,
            port: self.port@,
            filename: self.filename@,
            header: self.header@,
            format: self.format@,
        }
    }
}

/// What a settings file says, as far as it says anything.
pub struct Settings {
    pub ip: Option<String>,
    pub port: Option<String>,
    pub filename: Option<String>,
    pub header: Option<String>,
    pub format: Option<[S7Type; 8]>,
}

/// What the command line says, as far as it says anything.
pub struct Arguments {
    pub address: Option<String>,
    pub port: Option<String>,
    pub file: Option<String>,
}

/// `given` where there is one, `kept` otherwise.
pub open spec fn chosen(given: Option<String>, kept: Seq<char>) -> Seq<char> {
    match given {
        Some(text) => text@,
        None => kept,
    }
}

/// `given` where there is one, `kept` otherwise.
fn choose_text(given: Option<String>, kept: String) -> (text: String)
    ensures
        text@ == chosen(given, kept@),
{
    match given {
        Some(text) => text,
        None => kept,
    }
}

/// The settings that hold where nothing else is said.
pub open spec fn default_config() -> ConfigView {
    ConfigView {
        ip: "localhost"@,
        port: "3000"@,
        filename: "autoid_log.csv"@,
        header: "time, data0, data1, data2, data3, data4, data5, data6, data7, digital"@,
        format: Seq::new(8, |i: int| S7Type::Int),
    }
}

impl AppConfig {
    /// The settings that hold where nothing else is said: the local host,
    /// port 3000, the log `autoid_log.csv`, and eight integer channels.
    pub fn new() -> (config: AppConfig)
        ensures
            config@ == default_config(),
    {
        let config = AppConfig {
            ip: "localhost".to_owned(),
            port: "3000".to_owned(),
            filename: "autoid_log.csv".to_owned(),
            header: "time, data0, data1, data2, data3, data4, data5, data6, data7, digital".to_owned(),
            format: [S7Type::Int;8],
        };
        assert(config.format@ == Seq::new(8, |i: int| S7Type::Int));
        config
    }

    /// The settings with what a settings file says put in their place.
    pub fn with_settings(self, settings: Settings) -> (config: AppConfig)
        ensures
            config@ == (ConfigView {
                ip: chosen(settings.ip, self@.ip),
                port: chosen(settings.port, self@.port),
                filename: chosen(settings.filename, self@.filename),
                header: chosen(settings.header, self@.header),
                format: match settings.format {
                    Some(types) => types@,
                    None => self@.format,
                },
            }),
    {
        AppConfig {
            ip: choose_text(settings.ip, self.ip),
            port: choose_text(settings.port, self.port),
            filename: choose_text(settings.filename, self.filename),
            header: choose_text(settings.header, self.header),
            format: match settings.format {
                Some(types) => types,
                None => self.format,
            },
        }
    }

    /// The settings with what the command line says put in their place. The
    /// header and the format are not the command line's to set.
    pub fn with_arguments(self, arguments: Arguments) -> (config: AppConfig)
        ensures
            config@ == (ConfigView {
                ip: chosen(arguments.address, self@.ip),
                port: chosen(arguments.port, self@.port),
                filename: chosen(arguments.file, self@.filename),
                header: self@.header,
                format: self@.format,
            }),
    {
        AppConfig {
            ip: choose_text(arguments.address, self.ip),
            port: choose_text(arguments.port, self.port),
            filename: choose_text(arguments.file, self.filename),
            header: self.header,
            format: self.format,
        }
    }

    /// The address to connect to: the host, a colon and the port.
    pub fn endpoint(&self) -> (address: String)
        ensures
            address@ == self@.ip + seq![':'] + self@.port,
    {
        let mut address: String = self.ip.clone();
        proof {
            reveal_strlit(":");
        }
        address.append(":");
        address.append(self.port.as_str());
        address
    }
}

} // verus!
