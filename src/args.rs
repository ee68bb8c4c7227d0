use vstd::prelude::*;

use crate::text::{chars_of, last_index_of, same_text, string_of, sub_chars};

verus! {

/// The switches that a run is started with.
#[derive(PartialEq, Eq, Structural, Clone, Copy, Debug)]
pub struct Settings {
    /// Each entry is a directory whose files are renamed, and the directory after them.
    pub directory: bool,
    /// Report what would be renamed and change nothing.
    pub dry_run: bool,
    /// Always take the first search result and default subtitles to English.
    pub lucky: bool,
}

/// Why the command line was refused.
#[derive(PartialEq, Eq, Structural, Clone, Copy, Debug)]
pub enum ArgsError {
    /// No file or directory was named.
    NoEntries,
}

/// The value of switch `id` among the flags read: the last one given with
/// that name, false where there is none.
pub open spec fn flag_value(flags: Seq<(String, bool)>, id: Seq<char>) -> bool
    decreases flags.len(),
{
    if flags.len() == 0 {
        false
    } else if flags.last().0@ == id {
        flags.last().1
    } else {
        flag_value(flags.drop_last(), id)
    }
}

/// The settings and entries of a command line, from the switches read
/// (name and value) and the entries given: the switches `directory`,
/// `dry-run` and `i-feel-lucky` set the settings, and a command line
/// without entries is refused.
pub fn process_args(flags: Vec<(String, bool)>, entries: Option<Vec<String>>) -> (r: Result<
    (Vec<String>, Settings),
    ArgsError,
>)
    ensures
        match entries {
            Some(e) if e@.len() > 0 => r matches Ok((got, settings)) && got@ == e@ && settings
                == (Settings {
                directory: flag_value(flags@, "directory"@),
                dry_run: flag_value(flags@, "dry-run"@),
                lucky: flag_value(flags@, "i-feel-lucky"@),
            }),
            _ => r == Err::<(Vec<String>, Settings), ArgsError>(ArgsError::NoEntries),
        },
{
    let entries = match entries {
        Some(e) => e,
        None => {
            return Err(ArgsError::NoEntries);
        },
    };
    if entries.len() == 0 {
        return Err(ArgsError::NoEntries);
    }
    let mut settings = Settings { directory: false, dry_run: false, lucky: false };
    let mut i: usize = 0;
    assert(flags@.subrange(0, 0).len() == 0);
    while i < flags.len()
        invariant
            i <= flags.len(),
            settings == (Settings {
                directory: flag_value(flags@.subrange(0, i as int), "directory"@),
                dry_run: flag_value(flags@.subrange(0, i as int), "dry-run"@),
                lucky: flag_value(flags@.subrange(0, i as int), "i-feel-lucky"@),
            }),
        decreases flags.len() - i,
    {
        assert(flags@.subrange(0, i + 1).drop_last() =~= flags@.subrange(0, i as int));
        let id = flags[i].0.as_str();
        let value = flags[i].1;
        if same_text(id, "directory") {
            settings.directory = value;
        }
        if same_text(id, "dry-run") {
            settings.dry_run = value;
        }
        if same_text(id, "i-feel-lucky") {
            settings.lucky = value;
        }
        i = i + 1;
    }
    assert(flags@.subrange(0, flags@.len() as int) =~= flags@);
    Ok((entries, settings))
}

/// What the configuration file holds.
pub struct Config {
    pub api_key: String,
    pub pattern: String,
}

/// Why the configuration was refused.
#[derive(PartialEq, Eq, Structural, Clone, Copy, Debug)]
pub enum ConfigError {
    /// The first line, which holds the key, is missing or empty.
    MissingApiKey,
}

/// The pattern used where the configuration names none.
pub open spec fn default_pattern_text() -> Seq<char> {
    "{title} ({year}) - {director}"@
}

/// The pattern used where the configuration names none.
pub fn default_pattern() -> (r: String)
    ensures
        r@ == default_pattern_text(),
{
    String::from_str("{title} ({year}) - {director}")
}

/// A line without the carriage return that ended it, if there was one.
pub open spec fn without_cr(line: Seq<char>) -> Seq<char> {
    if line.len() > 0 && line.last() == '\r' {
        line.drop_last()
    } else {
        line
    }
}

/// The first line of a text and what follows it, if it has a line at all:
/// a line ends at a line feed, with a carriage return before it dropped.
pub open spec fn first_line(text: Seq<char>) -> Option<(Seq<char>, Seq<char>)> {
    if text.len() == 0 {
        None
    } else {
        let k = first_index_of(text, '\n');
        if k < 0 {
            Some((text, seq![]))
        } else {
            Some((without_cr(text.subrange(0, k)), text.subrange(k + 1, text.len() as int)))
        }
    }
}

/// Position of the first `c` in `s`, or -1 when there is none.
pub open spec fn first_index_of(s: Seq<char>, c: char) -> int
    decreases s.len(),
{
    if s.len() == 0 {
        -1
    } else if s[0] == c {
        0
    } else if first_index_of(s.subrange(1, s.len() as int), c) < 0 {
        -1
    } else {
        1 + first_index_of(s.subrange(1, s.len() as int), c)
    }
}

/// The key and pattern of a configuration text: the first line is the key
/// and must not be empty; the second line, where there is one, is the
/// pattern, else the default pattern is used.
pub open spec fn config_of(text: Seq<char>) -> Option<(Seq<char>, Seq<char>)> {
    match first_line(text) {
        None => None,
        Some((key, rest)) => if key.len() == 0 {
            None
        } else {
            match first_line(rest) {
                Some((pattern, _)) => Some((key, pattern)),
                None => Some((key, default_pattern_text())),
            }
        },
    }
}

fn first_index_of_exec(s: &Vec<char>, c: char) -> (r: Option<usize>)
    ensures
        match r {
            Some(k) => k == first_index_of(s@, c) && k < s@.len(),
            None => first_index_of(s@, c) == -1,
        },
{
    let mut i: usize = 0;
    assert(s@.subrange(0, s@.len() as int) =~= s@);
    while i < s.len()
        invariant
            i <= s.len(),
            forall|j: int| 0 <= j < i ==> s@[j] != c,
            first_index_of(s@, c) == if first_index_of(s@.subrange(i as int, s@.len() as int), c)
                < 0 {
                -1
            } else {
                i + first_index_of(s@.subrange(i as int, s@.len() as int), c)
            },
        decreases s.len() - i,
    {
        let ghost t = s@.subrange(i as int, s@.len() as int);
        assert(t.subrange(1, t.len() as int) =~= s@.subrange(i + 1, s@.len() as int));
        if s[i] == c {
            assert(t[0] == c);
            return Some(i);
        }
        i = i + 1;
    }
    None
}

/// Splits off the first line, as `first_line` says.
fn split_first_line(text: &Vec<char>) -> (r: Option<(Vec<char>, Vec<char>)>)
    ensures
        match r {
            Some((line, rest)) => first_line(text@) == Some((line@, rest@)),
            None => first_line(text@) is None,
        },
{
    if text.len() == 0 {
        return None;
    }
    match first_index_of_exec(text, '\n') {
        None => {
            assert(text@.subrange(0, text@.len() as int) =~= text@);
            Some((sub_chars(text, 0, text.len()), Vec::new()))
        },
        Some(k) => {
            let end = if k > 0 && text[k - 1] == '\r' {
                k - 1
            } else {
                k
            };
            let line = sub_chars(text, 0, end);
            assert(line@ =~= without_cr(text@.subrange(0, k as int)));
            Some((line, sub_chars(text, k + 1, text.len())))
        },
    }
}

/// Reads the configuration text: the first line is the key and must not be
/// empty; the second line, where there is one, is the pattern, else the
/// default pattern is used.
pub fn parse_config(text: &str) -> (r: Result<Config, ConfigError>)
    ensures
        match config_of(text@) {
            Some((key, pattern)) => r matches Ok(c) && c.api_key@ == key && c.pattern@ == pattern,
            None => r matches Err(ConfigError::MissingApiKey),
        },
{
    let chars = chars_of(text);
    let (key, rest) = match split_first_line(&chars) {
        Some(parts) => parts,
        None => {
            return Err(ConfigError::MissingApiKey);
        },
    };
    if key.len() == 0 {
        return Err(ConfigError::MissingApiKey);
    }
    let pattern = match split_first_line(&rest) {
        Some((line, _)) => string_of(&line),
        None => default_pattern(),
    };
    Ok(Config { api_key: string_of(&key), pattern })
}

} // verus!
