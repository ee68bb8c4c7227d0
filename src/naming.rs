use vstd::prelude::*;

use crate::decisions::{decision_for, opt_text, Decision, DecisionMap};
use crate::text::{
    chars_of, extend_chars, last_index_of, last_index_of_exec, lemma_last_index_concat,
    lemma_last_index_in_range,
    same_text, string_of, sub_chars,
};

verus! {

/// The directory part of a path: what stands before its last `/`, if it has one.
pub open spec fn parent_part(p: Seq<char>) -> Option<Seq<char>> {
    if last_index_of(p, '/') >= 0 {
        Some(p.subrange(0, last_index_of(p, '/')))
    } else {
        None
    }
}

/// The file name of a path: what follows its last `/`.
pub open spec fn leaf_part(p: Seq<char>) -> Seq<char> {
    p.subrange(last_index_of(p, '/') + 1, p.len() as int)
}

/// The stem of a file name and the language code written into it: in
/// `name.xx.ext`, with `xx` two characters, the stem is `name` and the code
/// `xx`; otherwise the stem is what stands before the last dot (the whole
/// name where there is no dot) and there is no code.
pub open spec fn stem_and_code(leaf: Seq<char>) -> (Seq<char>, Option<Seq<char>>) {
    let d1 = last_index_of(leaf, '.');
    let d2 = last_index_of(leaf.subrange(0, d1), '.');
    if d1 < 0 {
        (leaf, None)
    } else if d2 >= 0 && d1 - d2 == 3 {
        (leaf.subrange(0, d2), Some(leaf.subrange(d2 + 1, d1)))
    } else {
        (leaf.subrange(0, d1), None)
    }
}

/// A path taken apart for renaming.
pub struct FileName {
    pub path: String,
    pub parent: Option<String>,
    pub leaf: String,
    pub stem: String,
    pub language: Option<String>,
}

impl FileName {
    /// Whether the parts are those of `path`.
    pub open spec fn parts_of_path(&self) -> bool {
        &&& opt_text(self.parent) == parent_part(self.path@)
        &&& self.leaf@ == leaf_part(self.path@)
        &&& self.stem@ == stem_and_code(self.leaf@).0
        &&& opt_text(self.language) == stem_and_code(self.leaf@).1
    }
}

/// Takes a path apart into directory, file name, stem and language code.
pub fn split_file_name(path: &str) -> (r: FileName)
    ensures
        r.path@ == path@,
        r.parts_of_path(),
{
    let p = chars_of(path);
    proof {
        lemma_last_index_in_range(p@, '/');
    }
    let (parent, leaf) = match last_index_of_exec(&p, '/') {
        Some(k) => (Some(string_of(&sub_chars(&p, 0, k))), sub_chars(&p, k + 1, p.len())),
        None => {
            assert(p@.subrange(0, p@.len() as int) =~= p@);
            (None, sub_chars(&p, 0, p.len()))
        },
    };
    proof {
        lemma_last_index_in_range(leaf@, '.');
    }
    let (stem, language) = match last_index_of_exec(&leaf, '.') {
        None => {
            assert(leaf@.subrange(0, leaf@.len() as int) =~= leaf@);
            (sub_chars(&leaf, 0, leaf.len()), None)
        },
        Some(d1) => {
            let front = sub_chars(&leaf, 0, d1);
            proof {
                lemma_last_index_in_range(front@, '.');
            }
            match last_index_of_exec(&front, '.') {
                Some(d2) => {
                    if d1 - d2 == 3 {
                        (sub_chars(&leaf, 0, d2), Some(string_of(&sub_chars(&leaf, d2 + 1, d1))))
                    } else {
                        (front, None)
                    }
                },
                None => (front, None),
            }
        },
    };
    FileName {
        path: string_of(&p),
        parent,
        leaf: string_of(&leaf),
        stem: string_of(&stem),
        language,
    }
}

/// What the file-name parser reads from a file name: a title, maybe a
/// year, maybe an extension.
pub struct NameInfo {
    pub title: String,
    pub year: Option<i32>,
    pub extension: Option<String>,
}

pub open spec fn info_view(i: Option<NameInfo>) -> Option<(Seq<char>, Option<i32>, Option<Seq<char>>)> {
    match i {
        Some(n) => Some((n.title@, n.year, opt_text(n.extension))),
        None => None,
    }
}

/// What the file-name parser reads from a name, `None` where it finds no title.
pub uninterp spec fn parsed_name(leaf: Seq<char>) -> Option<(Seq<char>, Option<i32>, Option<Seq<char>>)>;

/// Whether Unicode counts `c` as a number.
pub uninterp spec fn numeric_char(c: char) -> bool;

pub open spec fn is_ascii_digit(c: char) -> bool {
    '0' <= c <= '9'
}

/// Names that the parser reads without failing: every character that counts
/// as a number is an ASCII digit, and no more than four digits stand in a row.
pub open spec fn parser_safe(leaf: Seq<char>) -> bool {
    &&& forall|i: int| 0 <= i < leaf.len() && numeric_char(#[trigger] leaf[i]) ==> is_ascii_digit(leaf[i])
    &&& forall|i: int|
        0 <= i && i + 5 <= leaf.len() ==> !(is_ascii_digit(#[trigger] leaf[i]) && is_ascii_digit(
            leaf[i + 1],
        ) && is_ascii_digit(leaf[i + 2]) && is_ascii_digit(leaf[i + 3]) && is_ascii_digit(
            leaf[i + 4],
        ))
}

/// Relies on `char::is_numeric`, which tells whether a character belongs to
/// one of Unicode's number categories; every ASCII digit does.
#[verifier::external_body]
fn is_numeric(c: char) -> (r: bool)
    ensures
        r == numeric_char(c),
        is_ascii_digit(c) ==> r,
{
    c.is_numeric()
}

/// Relies on `torrent_name_parser::Metadata::from`, which reads title, year
/// and extension from a file name and fails where no title is left. Its
/// digit captures are parsed with `unwrap` and an episode range is filled
/// one number at a time, so it is only called on names where every number
/// is short and written in ASCII digits. Its year pattern is
/// `(1[89]|20)\d\d`.
#[verifier::external_body]
fn parse_name(leaf: &str) -> (r: Option<NameInfo>)
    requires
        parser_safe(leaf@),
    ensures
        info_view(r) == parsed_name(leaf@),
        r matches Some(n) ==> (n.year matches Some(y) ==> 1800 <= y <= 2099),
{
    match torrent_name_parser::Metadata::from(leaf) {
        Ok(m) => Some(
            NameInfo {
                title: m.title().to_string(),
                year: m.year(),
                extension: m.extension().map(|e| e.to_string()),
            },
        ),
        Err(_) => None,
    }
}

/// Whether the parser can be asked about `leaf`.
pub fn is_parser_safe(leaf: &str) -> (r: bool)
    ensures
        r == parser_safe(leaf@),
{
    let s = chars_of(leaf);
    let mut run: usize = 0;
    let mut i: usize = 0;
    while i < s.len()
        invariant
            s@ == leaf@,
            i <= s.len(),
            run <= 4,
            run <= i,
            forall|k: int| i - run <= k < i ==> is_ascii_digit(#[trigger] s@[k]),
            i > run ==> !is_ascii_digit(s@[i - run - 1]),
            forall|k: int| 0 <= k < i && numeric_char(#[trigger] s@[k]) ==> is_ascii_digit(s@[k]),
            forall|k: int|
                0 <= k && k + 5 <= i ==> !(is_ascii_digit(#[trigger] s@[k]) && is_ascii_digit(
                    s@[k + 1],
                ) && is_ascii_digit(s@[k + 2]) && is_ascii_digit(s@[k + 3]) && is_ascii_digit(
                    s@[k + 4],
                )),
        decreases s.len() - i,
    {
        let c = s[i];
        let digit = '0' <= c && c <= '9';
        if !digit && is_numeric(c) {
            assert(numeric_char(leaf@[i as int]) && !is_ascii_digit(leaf@[i as int]));
            return false;
        }
        if digit {
            if run == 4 {
                assert(is_ascii_digit(s@[i - 4]) && is_ascii_digit(s@[i - 3]) && is_ascii_digit(
                    s@[i - 2],
                ) && is_ascii_digit(s@[i - 1]));
                assert(i + 1 <= s@.len());
                let ghost k: int = i - 4;
                assert(is_ascii_digit(leaf@[k]) && is_ascii_digit(leaf@[k + 1]) && is_ascii_digit(
                    leaf@[k + 2],
                ) && is_ascii_digit(leaf@[k + 3]) && is_ascii_digit(leaf@[k + 4]));
                return false;
            }
            run = run + 1;
        } else {
            run = 0;
        }
        i = i + 1;
    }
    assert(s@ == leaf@);
    true
}

/// Whether `e` is one of the handled extensions.
pub open spec fn handled_extension(e: Seq<char>) -> bool {
    e == "mp4"@ || e == "avi"@ || e == "mkv"@ || e == "flv"@ || e == "m4a"@ || e == "srt"@ || e
        == "ssa"@
}

/// Whether `e` is the extension of a subtitle file.
pub open spec fn subtitle_extension(e: Seq<char>) -> bool {
    e == "srt"@ || e == "ssa"@
}

pub fn is_handled_extension(e: &str) -> (r: bool)
    ensures
        r == handled_extension(e@),
{
    same_text(e, "mp4") || same_text(e, "avi") || same_text(e, "mkv") || same_text(e, "flv")
        || same_text(e, "m4a") || same_text(e, "srt") || same_text(e, "ssa")
}

pub fn is_subtitle_extension(e: &str) -> (r: bool)
    ensures
        r == subtitle_extension(e@),
{
    same_text(e, "srt") || same_text(e, "ssa")
}

/// How the handling of a file starts.
pub enum FileStart {
    /// An earlier file with the same stem was ignored: skip this one too.
    IgnoredBefore,
    /// The parser cannot read the file name.
    Unparseable,
    /// The extension is not one that is handled.
    Unsupported,
    /// An earlier file with the same stem was named: reuse its base name.
    Known { extension: String, base: String },
    /// Search the catalogue for the title and year read from the name.
    Search { extension: String, title: String, year: Option<u16> },
}

/// The extension read from a name, empty where none was read.
pub open spec fn read_extension(leaf: Seq<char>) -> Seq<char> {
    match parsed_name(leaf).unwrap().2 {
        Some(e) => e,
        None => seq![],
    }
}

/// What follows the last dot of a file name, empty where it has no dot.
pub open spec fn own_suffix(leaf: Seq<char>) -> Seq<char> {
    if last_index_of(leaf, '.') >= 0 {
        leaf.subrange(last_index_of(leaf, '.') + 1, leaf.len() as int)
    } else {
        seq![]
    }
}

/// What follows the last dot of a file name, empty where it has no dot.
pub fn suffix_of(leaf: &str) -> (r: String)
    ensures
        r@ == own_suffix(leaf@),
{
    let s = chars_of(leaf);
    proof {
        lemma_last_index_in_range(s@, '.');
    }
    match last_index_of_exec(&s, '.') {
        Some(d) => string_of(&sub_chars(&s, d + 1, s.len())),
        None => String::new(),
    }
}

/// The year handed to the search: the year read from the name.
pub open spec fn search_year(leaf: Seq<char>) -> Option<u16> {
    match parsed_name(leaf).unwrap().1 {
        Some(y) => Some(y as u16),
        None => None,
    }
}

/// Whether `r` is how the handling of the file with this stem and name
/// starts, given the decisions remembered so far.
pub open spec fn is_start_for(r: FileStart, known: Seq<Decision>, stem: Seq<char>, leaf: Seq<char>) -> bool {
    if decision_for(known, stem) == Some(None::<Seq<char>>) {
        r is IgnoredBefore
    } else if !handled_extension(own_suffix(leaf)) {
        r is Unsupported
    } else if decision_for(known, stem) is Some {
        r matches FileStart::Known { extension, base } && extension@ == own_suffix(leaf)
            && Some(base@) == decision_for(known, stem).unwrap()
    } else if !parser_safe(leaf) || parsed_name(leaf) is None {
        r is Unparseable
    } else if !handled_extension(read_extension(leaf)) {
        r is Unsupported
    } else {
        r matches FileStart::Search { extension, title, year } && extension@ == read_extension(
            leaf,
        ) && title@ == parsed_name(leaf).unwrap().0 && year == search_year(leaf)
    }
}

/// The first step for a file: a stem remembered as ignored is skipped; a
/// file whose name does not end in a handled extension is left alone; a
/// stem remembered with a name reuses it, with the file's own extension;
/// otherwise the name is read, and the title and year read go to the search.
pub fn examine_file(name: &FileName, known: &DecisionMap) -> (r: FileStart)
    ensures
        is_start_for(r, known@, name.stem@, name.leaf@),
{
    let previous = known.lookup(name.stem.as_str());
    if let Some(None) = &previous {
        return FileStart::IgnoredBefore;
    }
    let suffix = suffix_of(name.leaf.as_str());
    if !is_handled_extension(suffix.as_str()) {
        return FileStart::Unsupported;
    }
    if let Some(Some(base)) = previous {
        return FileStart::Known { extension: suffix, base };
    }
    if !is_parser_safe(name.leaf.as_str()) {
        return FileStart::Unparseable;
    }
    let info = match parse_name(name.leaf.as_str()) {
        Some(info) => info,
        None => {
            return FileStart::Unparseable;
        },
    };
    let extension = match info.extension {
        Some(e) => e,
        None => String::new(),
    };
    if !is_handled_extension(extension.as_str()) {
        return FileStart::Unsupported;
    }
    let year = match info.year {
        Some(y) => Some(y as u16),
        None => None,
    };
    FileStart::Search { extension, title: info.title, year }
}

/// What to do about the candidates that a search found.
pub enum Pick {
    /// Nothing was found.
    NoMatch,
    /// Take the candidate at this index.
    Take(usize),
    /// Let the user choose.
    Ask,
}

/// The first candidate is taken where it is the only one or in lucky mode;
/// otherwise the user chooses.
pub fn pick_candidate(count: usize, lucky: bool) -> (r: Pick)
    ensures
        count == 0 ==> r is NoMatch,
        count > 0 && (lucky || count == 1) ==> r == Pick::Take(0),
        count > 1 && !lucky ==> r is Ask,
{
    if count == 0 {
        Pick::NoMatch
    } else if lucky || count == 1 {
        Pick::Take(0)
    } else {
        Pick::Ask
    }
}

/// What is known of a subtitle file's language.
pub enum LanguageStep {
    /// The final extension, language included where there is one.
    Settled(String),
    /// The user picks the language.
    Ask,
}

/// `code.ext`.
pub open spec fn coded_extension(code: Seq<char>, extension: Seq<char>) -> Seq<char> {
    code + seq!['.'] + extension
}

/// The extension that a renamed file gets: a subtitle keeps the language
/// code written in its name; without one it is English in lucky mode and
/// asked for otherwise. Other files keep their extension.
pub fn language_step(name: &FileName, extension: &str, lucky: bool) -> (r: LanguageStep)
    ensures
        !subtitle_extension(extension@) ==> (r matches LanguageStep::Settled(e) && e@
            == extension@),
        subtitle_extension(extension@) ==> match name.language {
            Some(code) => (r matches LanguageStep::Settled(e) && e@ == coded_extension(
                code@,
                extension@,
            )),
            None => if lucky {
                (r matches LanguageStep::Settled(e) && e@ == coded_extension("en"@, extension@))
            } else {
                r is Ask
            },
        },
{
    if !is_subtitle_extension(extension) {
        return LanguageStep::Settled(String::from_str(extension));
    }
    match &name.language {
        Some(code) => LanguageStep::Settled(join_code(code.as_str(), extension)),
        None => {
            if lucky {
                LanguageStep::Settled(join_code("en", extension))
            } else {
                LanguageStep::Ask
            }
        },
    }
}

fn join_code(code: &str, extension: &str) -> (r: String)
    ensures
        r@ == coded_extension(code@, extension@),
{
    let mut out = chars_of(code);
    out.push('.');
    extend_chars(&mut out, &chars_of(extension));
    string_of(&out)
}

/// The extension after the user picked a language: the code goes in front,
/// unless "none" was picked.
pub fn extension_with_language(code: &str, extension: &str) -> (r: String)
    ensures
        code@ == "none"@ ==> r@ == extension@,
        code@ != "none"@ ==> r@ == coded_extension(code@, extension@),
{
    if same_text(code, "none") {
        String::from_str(extension)
    } else {
        join_code(code, extension)
    }
}

/// The extension after the language prompt: the picked code goes in front,
/// unless "none" was picked; `None` where the prompt was cancelled, and the
/// file is then left as it is.
pub fn extension_after_prompt(picked: Option<String>, extension: &str) -> (r: Option<String>)
    ensures
        picked is None ==> r is None,
        picked matches Some(code) ==> (r matches Some(e) && (code@ == "none"@ ==> e@
            == extension@) && (code@ != "none"@ ==> e@ == coded_extension(code@, extension@))),
{
    match picked {
        Some(code) => Some(extension_with_language(code.as_str(), extension)),
        None => None,
    }
}

/// The path a file is renamed to: in the same directory, the base name,
/// then a dot and the extension where there is one.
pub open spec fn target_path(parent: Option<Seq<char>>, base: Seq<char>, extension: Seq<char>) -> Seq<
    char,
> {
    let file = if extension.len() == 0 {
        base
    } else {
        base + seq!['.'] + extension
    };
    match parent {
        Some(d) => d + seq!['/'] + file,
        None => file,
    }
}

/// The path a file is renamed to.
pub fn target_for(name: &FileName, base: &str, extension: &str) -> (r: String)
    ensures
        r@ == target_path(opt_text(name.parent), base@, extension@),
{
    let mut out: Vec<char> = Vec::new();
    if let Some(d) = &name.parent {
        out = chars_of(d.as_str());
        out.push('/');
    }
    extend_chars(&mut out, &chars_of(base));
    let ext = chars_of(extension);
    if ext.len() > 0 {
        out.push('.');
        extend_chars(&mut out, &ext);
    }
    let r = string_of(&out);
    assert(r@ =~= target_path(opt_text(name.parent), base@, extension@));
    r
}

/// What happens to a file or directory once its new name is known.
#[derive(PartialEq, Eq, Structural, Clone, Copy, Debug)]
pub enum RenameAction {
    /// It already has that name: nothing to do.
    AlreadyNamed,
    /// Something already stands at the new name: skip.
    DestinationTaken,
    /// Rename it; `apply` is false in a dry run, where it is only reported.
    Rename { apply: bool },
}

pub open spec fn rename_decision(
    current: Seq<char>,
    target: Seq<char>,
    target_taken: bool,
    dry_run: bool,
) -> RenameAction {
    if current == target {
        RenameAction::AlreadyNamed
    } else if target_taken {
        RenameAction::DestinationTaken
    } else {
        RenameAction::Rename { apply: !dry_run }
    }
}

/// Whether and how to rename `current` to `target`: not where the names are
/// equal, not where something stands at `target`, and only as a report in a
/// dry run.
pub fn decide_rename(current: &str, target: &str, target_taken: bool, dry_run: bool) -> (r:
    RenameAction)
    ensures
        r == rename_decision(current@, target@, target_taken, dry_run),
{
    if same_text(current, target) {
        RenameAction::AlreadyNamed
    } else if target_taken {
        RenameAction::DestinationTaken
    } else {
        RenameAction::Rename { apply: !dry_run }
    }
}

/// A directory path without one trailing `/`.
pub open spec fn without_trailing_slash(p: Seq<char>) -> Seq<char> {
    if p.len() > 0 && p.last() == '/' {
        p.drop_last()
    } else {
        p
    }
}

/// A directory path without one trailing `/`, as directory names are compared.
pub fn directory_path(entry: &str) -> (r: String)
    ensures
        r@ == without_trailing_slash(entry@),
{
    let p = chars_of(entry);
    if p.len() > 0 && p[p.len() - 1] == '/' {
        string_of(&sub_chars(&p, 0, p.len() - 1))
    } else {
        string_of(&p)
    }
}

/// A file that already bears the name a rename would give it is left
/// alone. Renaming a file and deciding again with the same base name and
/// extension keeps it in its directory and gives no further action, where
/// neither holds a `/`.
pub proof fn lemma_rename_is_idempotent(
    path: Seq<char>,
    base: Seq<char>,
    extension: Seq<char>,
    target_taken: bool,
    dry_run: bool,
)
    requires
        !base.contains('/'),
        !extension.contains('/'),
    ensures
        path == target_path(parent_part(path), base, extension) ==> rename_decision(
            path,
            target_path(parent_part(path), base, extension),
            target_taken,
            dry_run,
        ) == RenameAction::AlreadyNamed,
        ({
            let t = target_path(parent_part(path), base, extension);
            &&& parent_part(t) == parent_part(path)
            &&& rename_decision(t, target_path(parent_part(t), base, extension), target_taken, dry_run)
                == RenameAction::AlreadyNamed
        }),
{
    let file = if extension.len() == 0 {
        base
    } else {
        base + seq!['.'] + extension
    };
    assert(!file.contains('/')) by {
        if extension.len() > 0 {
            assert forall|k: int| 0 <= k < file.len() implies file[k] != '/' by {
                if k < base.len() {
                    assert(file[k] == base[k]);
                } else if k > base.len() {
                    assert(file[k] == extension[k - base.len() - 1]);
                }
            }
        }
    }
    let t = target_path(parent_part(path), base, extension);
    match parent_part(path) {
        Some(d) => {
            lemma_last_index_concat(d + seq!['/'], file, '/');
            assert((d + seq!['/']).drop_last() =~= d);
            assert(t =~= (d + seq!['/']) + file);
            assert(t.subrange(0, d.len() as int) =~= d);
        },
        None => {
            lemma_last_index_concat(seq![], file, '/');
            assert(seq![] + file =~= file);
        },
    }
}

/// A dry run renames nothing and decides, and so reports, as a real run does.
pub proof fn lemma_dry_run_only_reports(current: Seq<char>, target: Seq<char>, target_taken: bool)
    ensures
        rename_decision(current, target, target_taken, true) != (RenameAction::Rename {
            apply: true,
        }),
        rename_decision(current, target, target_taken, true) == match rename_decision(
            current,
            target,
            target_taken,
            false,
        ) {
            RenameAction::Rename { .. } => RenameAction::Rename { apply: false },
            other => other,
        },
{
}

} // verus!
