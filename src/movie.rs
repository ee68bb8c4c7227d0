use vstd::prelude::*;

use crate::language::{get_long_lang, long_language};
use crate::text::{
    chars_of, extend_chars, lemma_absent_from_slice, lemma_occurs_in_suffix,
    lemma_replace_all_shrinks, occurs_at,
    occurs_at_exec, occurs_in, occurs_in_exec, replace_all, replace_all_exec,
    same_text, string_of, sub_chars,
};

verus! {

/// Characters that are dropped from names before they go into a file name.
pub open spec fn is_avoided(c: char) -> bool {
    c == '^' || c == '~' || c == '*' || c == '+' || c == '=' || c == '`' || c == '/' || c == '\\'
        || c == '"' || c == '>' || c == '<' || c == '|'
}

/// The character that stands for `c` in a file name.
pub open spec fn file_safe_char(c: char) -> char {
    if c == ':' {
        '\u{2236}'
    } else if c == '?' {
        '\u{FE56}'
    } else {
        c
    }
}

/// `s` without the avoided characters, with `:` and `?` replaced by
/// look-alikes that file systems accept.
pub open spec fn sanitized(s: Seq<char>) -> Seq<char>
    decreases s.len(),
{
    if s.len() == 0 {
        s
    } else if is_avoided(s.last()) {
        sanitized(s.drop_last())
    } else {
        sanitized(s.drop_last()).push(file_safe_char(s.last()))
    }
}

/// Number of bytes that `c` takes in UTF-8.
pub open spec fn utf8_width(c: char) -> nat {
    if (c as u32) < 0x80 {
        1
    } else if (c as u32) < 0x800 {
        2
    } else if (c as u32) < 0x10000 {
        3
    } else {
        4
    }
}

/// Number of leading characters of `s` that fit in `budget` bytes of UTF-8.
pub open spec fn fitting_len(s: Seq<char>, budget: nat) -> nat
    decreases s.len(),
{
    if s.len() == 0 {
        0
    } else if utf8_width(s[0]) <= budget {
        1 + fitting_len(s.subrange(1, s.len() as int), (budget - utf8_width(s[0])) as nat)
    } else {
        0
    }
}

/// The longest prefix of `s` whose UTF-8 encoding takes at most `budget` bytes.
pub open spec fn truncated(s: Seq<char>, budget: nat) -> Seq<char> {
    s.subrange(0, fitting_len(s, budget) as int)
}

/// Largest number of bytes of a title in a file name.
pub const TITLE_BYTES: usize = 159;

/// Largest number of bytes of the directors' names in a file name.
pub const DIRECTOR_BYTES: usize = 63;

pub open spec fn title_token() -> Seq<char> {
    seq!['{', 't', 'i', 't', 'l', 'e', '}']
}

pub open spec fn year_token() -> Seq<char> {
    seq!['{', 'y', 'e', 'a', 'r', '}']
}

pub open spec fn director_token() -> Seq<char> {
    seq!['{', 'd', 'i', 'r', 'e', 'c', 't', 'o', 'r', '}']
}

/// A placeholder in parentheses, as in `({year})`.
pub open spec fn boxed(token: Seq<char>) -> Seq<char> {
    seq!['('] + token + seq![')']
}

/// The pattern `p` read left to right, each placeholder replaced by its
/// value; a placeholder in parentheses whose value is empty goes together
/// with its parentheses.
pub open spec fn substituted(
    p: Seq<char>,
    title: Seq<char>,
    year: Seq<char>,
    director: Seq<char>,
) -> Seq<char>
    decreases p.len(),
{
    if p.len() == 0 {
        p
    } else if title.len() == 0 && occurs_at(p, 0, boxed(title_token())) {
        substituted(p.subrange(9, p.len() as int), title, year, director)
    } else if year.len() == 0 && occurs_at(p, 0, boxed(year_token())) {
        substituted(p.subrange(8, p.len() as int), title, year, director)
    } else if director.len() == 0 && occurs_at(p, 0, boxed(director_token())) {
        substituted(p.subrange(12, p.len() as int), title, year, director)
    } else if occurs_at(p, 0, title_token()) {
        title + substituted(p.subrange(7, p.len() as int), title, year, director)
    } else if occurs_at(p, 0, year_token()) {
        year + substituted(p.subrange(6, p.len() as int), title, year, director)
    } else if occurs_at(p, 0, director_token()) {
        director + substituted(p.subrange(10, p.len() as int), title, year, director)
    } else {
        seq![p[0]] + substituted(p.subrange(1, p.len() as int), title, year, director)
    }
}

pub open spec fn is_separator(c: char) -> bool {
    c == '-' || c == ' '
}

pub open spec fn trim_start(s: Seq<char>) -> Seq<char>
    decreases s.len(),
{
    if s.len() > 0 && is_separator(s[0]) {
        trim_start(s.subrange(1, s.len() as int))
    } else {
        s
    }
}

pub open spec fn trim_end(s: Seq<char>) -> Seq<char>
    decreases s.len(),
{
    if s.len() > 0 && is_separator(s.last()) {
        trim_end(s.drop_last())
    } else {
        s
    }
}

/// `s` without the dashes and spaces at either end.
pub open spec fn trimmed(s: Seq<char>) -> Seq<char> {
    trim_end(trim_start(s))
}

/// A dash, a space and a dash, left where a field between dashes was absent.
pub open spec fn dash_gap() -> Seq<char> {
    seq!['-', ' ', '-']
}

/// Number of spaces in a row from position `i` of `s` on.
pub open spec fn spaces_from(s: Seq<char>, i: int) -> nat
    decreases s.len() - i,
{
    if 0 <= i < s.len() && s[i] == ' ' {
        1 + spaces_from(s, i + 1)
    } else {
        0
    }
}

/// Length of the gap at position `i` of `s`: a dash and the one or more
/// spaces after it, where another dash follows them; 0 where there is none.
pub open spec fn gap_at(s: Seq<char>, i: int) -> nat {
    if 0 <= i < s.len() && s[i] == '-' && spaces_from(s, i + 1) >= 1 && i + 1 + spaces_from(
        s,
        i + 1,
    ) < s.len() && s[i + 1 + spaces_from(s, i + 1)] == '-' {
        1 + spaces_from(s, i + 1)
    } else {
        0
    }
}

/// Whether `s` holds a dash, one or more spaces and a dash in a row.
pub open spec fn has_gap(s: Seq<char>) -> bool {
    exists|i: int| #[trigger] gap_at(s, i) > 0
}

/// `s` from position `i` on, read left to right, each gap dropped so that
/// the dashes on either side of it become one.
pub open spec fn gaps_closed_from(s: Seq<char>, i: int) -> Seq<char>
    decreases s.len() - i,
{
    if i < 0 || i >= s.len() {
        seq![]
    } else if gap_at(s, i) > 0 {
        gaps_closed_from(s, i + gap_at(s, i))
    } else {
        seq![s[i]] + gaps_closed_from(s, i + 1)
    }
}

/// Whether a year or director placeholder, or a gap between dashes, is left in `s`.
pub open spec fn has_leftover(s: Seq<char>) -> bool {
    occurs_in(s, year_token()) || occurs_in(s, director_token()) || has_gap(s)
}

/// `s` after removing, again and again, every year or director placeholder
/// left over and every gap between dashes, until none of them is left.
pub open spec fn settled(s: Seq<char>) -> Seq<char>
    decreases s.len(),
    via settled_decreases
{
    if occurs_in(s, year_token()) {
        settled(replace_all(s, year_token(), seq![]))
    } else if occurs_in(s, director_token()) {
        settled(replace_all(s, director_token(), seq![]))
    } else if has_gap(s) {
        settled(gaps_closed_from(s, 0))
    } else {
        s
    }
}

#[via_fn]
proof fn settled_decreases(s: Seq<char>) {
    lemma_settle_step_shrinks(s);
}

proof fn lemma_gaps_closed_shrinks(s: Seq<char>, i: int)
    requires
        0 <= i <= s.len(),
    ensures
        gaps_closed_from(s, i).len() <= s.len() - i,
        (exists|j: int| i <= j && #[trigger] gap_at(s, j) > 0) ==> gaps_closed_from(s, i).len()
            < s.len() - i,
    decreases s.len() - i,
{
    if i < s.len() {
        if gap_at(s, i) > 0 {
            lemma_gaps_closed_shrinks(s, i + gap_at(s, i));
        } else {
            lemma_gaps_closed_shrinks(s, i + 1);
            if exists|j: int| i <= j && #[trigger] gap_at(s, j) > 0 {
                let j = choose|j: int| i <= j && #[trigger] gap_at(s, j) > 0;
                assert(i + 1 <= j);
            }
        }
    }
}

/// Each step of settling shortens the text.
proof fn lemma_settle_step_shrinks(s: Seq<char>)
    ensures
        occurs_in(s, year_token()) ==> replace_all(s, year_token(), seq![]).len() < s.len(),
        occurs_in(s, director_token()) ==> replace_all(s, director_token(), seq![]).len()
            < s.len(),
        has_gap(s) ==> gaps_closed_from(s, 0).len() < s.len(),
{
    lemma_replace_all_shrinks(s, year_token(), seq![]);
    lemma_replace_all_shrinks(s, director_token(), seq![]);
    lemma_gaps_closed_shrinks(s, 0);
    if has_gap(s) {
        let j = choose|j: int| #[trigger] gap_at(s, j) > 0;
        assert(0 <= j);
    }
}

/// Clean-up after substitution: leftovers are settled, then the dashes and
/// spaces at either end go.
pub open spec fn tidied(s: Seq<char>) -> Seq<char> {
    trimmed(settled(s))
}

/// The base file name that pattern `p` gives with the given field values.
pub open spec fn rendered(
    p: Seq<char>,
    title: Seq<char>,
    year: Seq<char>,
    director: Seq<char>,
) -> Seq<char> {
    tidied(substituted(p, title, year, director))
}

/// The decimal digit for `d`.
pub open spec fn digit_char(d: nat) -> char {
    if d == 0 {
        '0'
    } else if d == 1 {
        '1'
    } else if d == 2 {
        '2'
    } else if d == 3 {
        '3'
    } else if d == 4 {
        '4'
    } else if d == 5 {
        '5'
    } else if d == 6 {
        '6'
    } else if d == 7 {
        '7'
    } else if d == 8 {
        '8'
    } else {
        '9'
    }
}

/// `n` in decimal, without leading zeros.
pub open spec fn decimal(n: nat) -> Seq<char>
    decreases n,
{
    if n < 10 {
        seq![digit_char(n)]
    } else {
        decimal(n / 10).push(digit_char(n % 10))
    }
}

/// `s` with zeros put in front up to four characters.
pub open spec fn four_wide(s: Seq<char>) -> Seq<char> {
    if s.len() < 4 {
        Seq::new((4 - s.len()) as nat, |i: int| '0') + s
    } else {
        s
    }
}

/// A year as a calendar writes it: four digits, zero-padded, with a sign in
/// front when it is below 0 or above 9999.
pub open spec fn year_text(y: int) -> Seq<char> {
    if 0 <= y < 10000 {
        four_wide(decimal(y as nat))
    } else if y < 0 {
        seq!['-'] + four_wide(decimal((-y) as nat))
    } else {
        seq!['+'] + four_wide(decimal(y as nat))
    }
}

/// A search result, as the catalogue gives it.
pub struct MovieSummary {
    pub title: String,
    pub id: u64,
    pub release_year: Option<i32>,
    pub original_language: String,
}

/// A candidate movie for a file.
pub struct MovieEntry {
    pub title: String,
    pub id: u64,
    pub director: Option<String>,
    pub year: Option<String>,
    pub language: String,
}

/// One member of a film's crew.
pub struct CrewMember {
    pub job: String,
    pub name: String,
}

pub open spec fn text_or_empty(t: Option<String>) -> Seq<char> {
    match t {
        Some(s) => s@,
        None => seq![],
    }
}

/// The title as it goes into a file name.
pub open spec fn title_field(title: Seq<char>) -> Seq<char> {
    truncated(sanitized(title), TITLE_BYTES as nat)
}

/// The directors as they go into a file name, or nothing.
pub open spec fn director_field(director: Option<String>) -> Seq<char> {
    match director {
        Some(d) => truncated(sanitized(d@), DIRECTOR_BYTES as nat),
        None => seq![],
    }
}

/// The names of the crew members whose job is "Director", in order.
pub open spec fn directors_of(crew: Seq<CrewMember>) -> Seq<Seq<char>>
    decreases crew.len(),
{
    if crew.len() == 0 {
        seq![]
    } else if crew.last().job@ == "Director"@ {
        directors_of(crew.drop_last()).push(crew.last().name@)
    } else {
        directors_of(crew.drop_last())
    }
}

/// The names joined with ", ".
pub open spec fn comma_joined(names: Seq<Seq<char>>) -> Seq<char>
    decreases names.len(),
{
    if names.len() == 0 {
        seq![]
    } else if names.len() == 1 {
        names[0]
    } else {
        comma_joined(names.drop_last()) + ", "@ + names.last()
    }
}

/// A list of names as a credit line: one name alone; several as the names
/// before the last joined with ", ", then " and ", then the last name.
pub open spec fn credit_line(names: Seq<Seq<char>>) -> Seq<char> {
    if names.len() <= 1 {
        comma_joined(names)
    } else {
        comma_joined(names.drop_last()) + " and "@ + names.last()
    }
}

/// The credit line for the directors of a crew, if it has any.
pub open spec fn director_line(crew: Seq<CrewMember>) -> Option<Seq<char>> {
    if directors_of(crew).len() == 0 {
        None
    } else {
        Some(credit_line(directors_of(crew)))
    }
}

impl MovieEntry {
    /// The base file name that `format` gives for this entry.
    pub open spec fn file_name(&self, format: Seq<char>) -> Seq<char> {
        rendered(
            format,
            title_field(self.title@),
            text_or_empty(self.year),
            director_field(self.director),
        )
    }

    /// The one-line summary shown when choosing among entries.
    pub open spec fn summary(&self) -> Seq<char> {
        self.title@ + " "@ + match self.year {
            Some(y) => "("@ + y@ + "), "@,
            None => seq![],
        } + "Language: "@ + long_language(self.language@) + ", "@ + match self.director {
            Some(d) => "Directed by: "@ + d@ + ", "@,
            None => seq![],
        } + "TMDB ID: "@ + decimal(self.id as nat)
    }

    /// An entry for a search result, with no director yet.
    pub fn from(movie: MovieSummary) -> (r: MovieEntry)
        ensures
            r.title@ == movie.title@,
            r.id == movie.id,
            r.director is None,
            r.year matches Some(y) ==> movie.release_year matches Some(n) && y@ == year_text(
                n as int,
            ),
            r.year is None ==> movie.release_year is None,
            r.language@ == long_language(movie.original_language@),
    {
        let year = match movie.release_year {
            Some(n) => Some(year_string(n)),
            None => None,
        };
        let language = get_long_lang(movie.original_language.as_str());
        MovieEntry { title: movie.title, id: movie.id, director: None, year, language }
    }

    /// The base file name that `format` gives for this entry: each
    /// placeholder `{title}`, `{year}`, `{director}` is replaced by the
    /// field, or by nothing where the field is absent (together with its
    /// parentheses, where it stands in them); then leftover year and
    /// director placeholders and gaps between dashes go, and the dashes and
    /// spaces at either end.
    pub fn rename_format(&self, format: String) -> (r: String)
        ensures
            r@ == self.file_name(format@),
    {
        let title = sanitize_chars(&chars_of(self.title.as_str()));
        let title = truncate_to_bytes(&title, TITLE_BYTES);
        let year = match &self.year {
            Some(y) => chars_of(y.as_str()),
            None => Vec::new(),
        };
        let director = match &self.director {
            Some(d) => {
                let d = sanitize_chars(&chars_of(d.as_str()));
                truncate_to_bytes(&d, DIRECTOR_BYTES)
            },
            None => Vec::new(),
        };
        let raw = substitute(&chars_of(format.as_str()), &title, &year, &director);
        string_of(&tidy(&raw))
    }

    /// The one-line summary shown when choosing among entries.
    pub fn describe(&self) -> (r: String)
        ensures
            r@ == self.summary(),
    {
        let mut out = chars_of(self.title.as_str());
        extend_chars(&mut out, &chars_of(" "));
        if let Some(y) = &self.year {
            extend_chars(&mut out, &chars_of("("));
            extend_chars(&mut out, &chars_of(y.as_str()));
            extend_chars(&mut out, &chars_of("), "));
        }
        extend_chars(&mut out, &chars_of("Language: "));
        extend_chars(&mut out, &chars_of(get_long_lang(self.language.as_str()).as_str()));
        extend_chars(&mut out, &chars_of(", "));
        if let Some(d) = &self.director {
            extend_chars(&mut out, &chars_of("Directed by: "));
            extend_chars(&mut out, &chars_of(d.as_str()));
            extend_chars(&mut out, &chars_of(", "));
        }
        extend_chars(&mut out, &chars_of("TMDB ID: "));
        push_decimal(&mut out, self.id);
        let r = string_of(&out);
        assert(r@ =~= self.summary());
        r
    }
}

/// Whether a pattern names the director, so that the credits are needed.
pub fn needs_director(format: &str) -> (r: bool)
    ensures
        r == occurs_in(format@, director_token()),
{
    let tok = token_chars(2);
    occurs_in_exec(&chars_of(format), &tok)
}

/// `input` without the characters that file systems refuse or that cause
/// trouble in file names; `:` and `?` become look-alikes.
pub fn sanitize(input: String) -> (r: String)
    ensures
        r@ == sanitized(input@),
{
    string_of(&sanitize_chars(&chars_of(input.as_str())))
}

fn sanitize_chars(s: &Vec<char>) -> (r: Vec<char>)
    ensures
        r@ == sanitized(s@),
{
    let mut out: Vec<char> = Vec::new();
    let mut i: usize = 0;
    while i < s.len()
        invariant
            i <= s.len(),
            out@ == sanitized(s@.subrange(0, i as int)),
        decreases s.len() - i,
    {
        let c = s[i];
        assert(s@.subrange(0, i + 1).drop_last() =~= s@.subrange(0, i as int));
        if c == '^' || c == '~' || c == '*' || c == '+' || c == '=' || c == '`' || c == '/' || c
            == '\\' || c == '"' || c == '>' || c == '<' || c == '|' {
        } else if c == ':' {
            out.push('\u{2236}');
        } else if c == '?' {
            out.push('\u{FE56}');
        } else {
            out.push(c);
        }
        i = i + 1;
    }
    assert(s@.subrange(0, s@.len() as int) =~= s@);
    out
}

fn utf8_width_exec(c: char) -> (r: usize)
    ensures
        r == utf8_width(c),
{
    let n = c as u32;
    if n < 0x80 {
        1
    } else if n < 0x800 {
        2
    } else if n < 0x10000 {
        3
    } else {
        4
    }
}

/// The longest prefix of `s` whose UTF-8 encoding fits in `budget` bytes.
pub fn truncate_to_bytes(s: &Vec<char>, budget: usize) -> (r: Vec<char>)
    ensures
        r@ == truncated(s@, budget as nat),
{
    let mut i: usize = 0;
    let mut left: usize = budget;
    assert(s@.subrange(0, s@.len() as int) =~= s@);
    while i < s.len() && utf8_width_exec(s[i]) <= left
        invariant
            i <= s.len(),
            left <= budget,
            fitting_len(s@, budget as nat) == i + fitting_len(
                s@.subrange(i as int, s@.len() as int),
                left as nat,
            ),
        decreases s.len() - i,
    {
        let ghost t = s@.subrange(i as int, s@.len() as int);
        assert(t.subrange(1, t.len() as int) =~= s@.subrange(i + 1, s@.len() as int));
        let w = utf8_width_exec(s[i]);
        left = left - w;
        i = i + 1;
    }
    assert(fitting_len(s@.subrange(i as int, s@.len() as int), left as nat) == 0) by {
        let t = s@.subrange(i as int, s@.len() as int);
        if i < s.len() {
            assert(t[0] == s@[i as int]);
        }
    }
    sub_chars(s, 0, i)
}

fn token_chars(which: u8) -> (r: Vec<char>)
    requires
        which < 3,
    ensures
        which == 0 ==> r@ == title_token(),
        which == 1 ==> r@ == year_token(),
        which == 2 ==> r@ == director_token(),
{
    if which == 0 {
        let r = vec!['{', 't', 'i', 't', 'l', 'e', '}'];
        assert(r@ =~= title_token());
        r
    } else if which == 1 {
        let r = vec!['{', 'y', 'e', 'a', 'r', '}'];
        assert(r@ =~= year_token());
        r
    } else {
        let r = vec!['{', 'd', 'i', 'r', 'e', 'c', 't', 'o', 'r', '}'];
        assert(r@ =~= director_token());
        r
    }
}

fn boxed_chars(token: &Vec<char>) -> (r: Vec<char>)
    ensures
        r@ == boxed(token@),
{
    let mut r = vec!['('];
    extend_chars(&mut r, token);
    r.push(')');
    assert(r@ =~= boxed(token@));
    r
}

/// The pattern read left to right, each placeholder replaced by its value,
/// as `substituted` says.
pub fn substitute(p: &Vec<char>, title: &Vec<char>, year: &Vec<char>, director: &Vec<char>) -> (r:
    Vec<char>)
    ensures
        r@ == substituted(p@, title@, year@, director@),
{
    let title_tok = token_chars(0);
    let year_tok = token_chars(1);
    let director_tok = token_chars(2);
    let title_box = boxed_chars(&title_tok);
    let year_box = boxed_chars(&year_tok);
    let director_box = boxed_chars(&director_tok);
    let mut out: Vec<char> = Vec::new();
    let mut i: usize = 0;
    assert(p@.subrange(0, p@.len() as int) =~= p@);
    assert(out@ + p@ =~= p@);
    while i < p.len()
        invariant
            i <= p.len(),
            title_tok@ == title_token(),
            year_tok@ == year_token(),
            director_tok@ == director_token(),
            title_box@ == boxed(title_token()),
            year_box@ == boxed(year_token()),
            director_box@ == boxed(director_token()),
            substituted(p@, title@, year@, director@) == out@ + substituted(
                p@.subrange(i as int, p@.len() as int),
                title@,
                year@,
                director@,
            ),
        decreases p.len() - i,
    {
        let ghost t = p@.subrange(i as int, p@.len() as int);
        let ghost before = out@;
        proof {
            lemma_occurs_in_suffix(p@, i as int);
        }
        let step: usize;
        if title.len() == 0 && occurs_at_exec(p, i, &title_box) {
            step = 9;
        } else if year.len() == 0 && occurs_at_exec(p, i, &year_box) {
            step = 8;
        } else if director.len() == 0 && occurs_at_exec(p, i, &director_box) {
            step = 12;
        } else if occurs_at_exec(p, i, &title_tok) {
            extend_chars(&mut out, title);
            step = 7;
        } else if occurs_at_exec(p, i, &year_tok) {
            extend_chars(&mut out, year);
            step = 6;
        } else if occurs_at_exec(p, i, &director_tok) {
            extend_chars(&mut out, director);
            step = 10;
        } else {
            out.push(p[i]);
            step = 1;
        }
        assert(t.subrange(step as int, t.len() as int) =~= p@.subrange(i + step, p@.len() as int));
        i = i + step;
        assert(out@ + substituted(p@.subrange(i as int, p@.len() as int), title@, year@, director@)
            =~= before + substituted(t, title@, year@, director@));
    }
    assert(out@ + seq![] =~= out@);
    out
}

fn is_separator_exec(c: char) -> (r: bool)
    ensures
        r == is_separator(c),
{
    c == '-' || c == ' '
}

/// `s` without the dashes and spaces at either end.
pub fn trim_separators(s: &Vec<char>) -> (r: Vec<char>)
    ensures
        r@ == trimmed(s@),
{
    let mut a: usize = 0;
    assert(s@.subrange(0, s@.len() as int) =~= s@);
    while a < s.len() && is_separator_exec(s[a])
        invariant
            a <= s.len(),
            trim_start(s@) == trim_start(s@.subrange(a as int, s@.len() as int)),
        decreases s.len() - a,
    {
        let ghost t = s@.subrange(a as int, s@.len() as int);
        assert(t.subrange(1, t.len() as int) =~= s@.subrange(a + 1, s@.len() as int));
        a = a + 1;
    }
    let ghost u = s@.subrange(a as int, s@.len() as int);
    assert(trim_start(s@) == u) by {
        if a < s.len() {
            assert(u[0] == s@[a as int]);
        }
    }
    let mut b: usize = s.len();
    assert(u.subrange(0, (b - a) as int) =~= u);
    while b > a && is_separator_exec(s[b - 1])
        invariant
            a <= b <= s.len(),
            u == s@.subrange(a as int, s@.len() as int),
            trim_end(u) == trim_end(s@.subrange(a as int, b as int)),
        decreases b,
    {
        assert(s@.subrange(a as int, b as int).drop_last() =~= s@.subrange(a as int, b - 1));
        b = b - 1;
    }
    sub_chars(s, a, b)
}

fn spaces_from_exec(s: &Vec<char>, i: usize) -> (r: usize)
    ensures
        r == spaces_from(s@, i as int),
{
    let mut j: usize = i;
    let mut n: usize = 0;
    while j < s.len() && s[j] == ' '
        invariant
            i <= j,
            n == j - i,
            spaces_from(s@, i as int) == n + spaces_from(s@, j as int),
        decreases s.len() - j,
    {
        j = j + 1;
        n = n + 1;
    }
    n
}

fn gap_at_exec(s: &Vec<char>, i: usize) -> (r: usize)
    ensures
        r == gap_at(s@, i as int),
{
    if i >= s.len() || s[i] != '-' {
        return 0;
    }
    let k = spaces_from_exec(s, i + 1);
    if k >= 1 && k < s.len() - i - 1 && s[i + 1 + k] == '-' {
        1 + k
    } else {
        0
    }
}

fn has_gap_exec(s: &Vec<char>) -> (r: bool)
    ensures
        r == has_gap(s@),
{
    let mut i: usize = 0;
    while i < s.len()
        invariant
            i <= s.len(),
            forall|j: int| 0 <= j < i ==> #[trigger] gap_at(s@, j) == 0,
        decreases s.len() - i,
    {
        if gap_at_exec(s, i) > 0 {
            return true;
        }
        i = i + 1;
    }
    assert forall|j: int| #[trigger] gap_at(s@, j) == 0 by {
        if 0 <= j < i {
        }
    }
    false
}

/// Drops each gap between dashes, as `gaps_closed_from` says.
pub fn close_gaps(s: &Vec<char>) -> (r: Vec<char>)
    ensures
        r@ == gaps_closed_from(s@, 0),
{
    let mut out: Vec<char> = Vec::new();
    let mut i: usize = 0;
    assert(out@ + gaps_closed_from(s@, 0) =~= gaps_closed_from(s@, 0));
    while i < s.len()
        invariant
            i <= s.len(),
            gaps_closed_from(s@, 0) == out@ + gaps_closed_from(s@, i as int),
        decreases s.len() - i,
    {
        let g = gap_at_exec(s, i);
        if g > 0 {
            i = i + g;
        } else {
            let ghost before = out@;
            out.push(s[i]);
            assert(out@ + gaps_closed_from(s@, i + 1) =~= before + (seq![s@[i as int]]
                + gaps_closed_from(s@, i + 1)));
            i = i + 1;
        }
    }
    assert(out@ + gaps_closed_from(s@, i as int) =~= out@);
    out
}

fn has_leftover_exec(s: &Vec<char>, year_tok: &Vec<char>, director_tok: &Vec<char>) -> (r: bool)
    requires
        year_tok@ == year_token(),
        director_tok@ == director_token(),
    ensures
        r == has_leftover(s@),
{
    occurs_in_exec(s, year_tok) || occurs_in_exec(s, director_tok) || has_gap_exec(s)
}

/// Settles the leftovers, as `settled` says.
pub fn settle(s: &Vec<char>) -> (r: Vec<char>)
    ensures
        r@ == settled(s@),
{
    let year_tok = token_chars(1);
    let director_tok = token_chars(2);
    let nothing: Vec<char> = Vec::new();
    assert(nothing@ =~= seq![]);
    let mut cur = s.clone();
    assert(cur@ =~= s@);
    while has_leftover_exec(&cur, &year_tok, &director_tok)
        invariant
            year_tok@ == year_token(),
            director_tok@ == director_token(),
            nothing@ == Seq::<char>::empty(),
            settled(s@) == settled(cur@),
        decreases cur@.len(),
    {
        proof {
            lemma_settle_step_shrinks(cur@);
        }
        if occurs_in_exec(&cur, &year_tok) {
            cur = replace_all_exec(&cur, &year_tok, &nothing);
        } else if occurs_in_exec(&cur, &director_tok) {
            cur = replace_all_exec(&cur, &director_tok, &nothing);
        } else {
            cur = close_gaps(&cur);
        }
    }
    cur
}

/// Clean-up after substitution, as `tidied` says.
pub fn tidy(s: &Vec<char>) -> (r: Vec<char>)
    ensures
        r@ == tidied(s@),
{
    trim_separators(&settle(s))
}

fn digit_exec(d: u64) -> (r: char)
    requires
        d < 10,
    ensures
        r == digit_char(d as nat),
{
    if d == 0 {
        '0'
    } else if d == 1 {
        '1'
    } else if d == 2 {
        '2'
    } else if d == 3 {
        '3'
    } else if d == 4 {
        '4'
    } else if d == 5 {
        '5'
    } else if d == 6 {
        '6'
    } else if d == 7 {
        '7'
    } else if d == 8 {
        '8'
    } else {
        '9'
    }
}

/// Appends `n` in decimal.
pub fn push_decimal(out: &mut Vec<char>, n: u64)
    ensures
        final(out)@ == old(out)@ + decimal(n as nat),
    decreases n,
{
    if n >= 10 {
        push_decimal(out, n / 10);
    }
    out.push(digit_exec(n % 10));
    assert(out@ =~= old(out)@ + decimal(n as nat));
}

/// A year written as `year_text` says.
pub fn year_string(y: i32) -> (r: String)
    ensures
        r@ == year_text(y as int),
{
    let mut out: Vec<char> = Vec::new();
    let magnitude: u64 = if y < 0 {
        out.push('-');
        (-(y as i64)) as u64
    } else {
        if y >= 10000 {
            out.push('+');
        }
        y as u64
    };
    let mut digits: Vec<char> = Vec::new();
    push_decimal(&mut digits, magnitude);
    assert(digits@ =~= decimal(magnitude as nat));
    let ghost sign = out@;
    let mut k: usize = digits.len();
    while k < 4
        invariant
            digits@ == decimal(magnitude as nat),
            digits.len() <= k,
            k <= 4 || k == digits.len(),
            out@ == sign + Seq::new((k - digits@.len()) as nat, |i: int| '0'),
        decreases 4 - k,
    {
        out.push('0');
        k = k + 1;
        assert(out@ =~= sign + Seq::new((k - digits@.len()) as nat, |i: int| '0'));
    }
    extend_chars(&mut out, &digits);
    let r = string_of(&out);
    assert(r@ =~= year_text(y as int));
    r
}

/// The credit line for the directors of a crew: one director's name alone;
/// several as the names before the last joined with ", ", then " and ",
/// then the last name; `None` where the crew has no director.
pub fn director_credit(crew: &Vec<CrewMember>) -> (r: Option<String>)
    ensures
        match r {
            Some(line) => director_line(crew@) == Some(line@),
            None => director_line(crew@) is None,
        },
{
    let mut joined: Vec<char> = Vec::new();
    let mut before_last: Vec<char> = Vec::new();
    let mut last: Vec<char> = Vec::new();
    let mut count: usize = 0;
    let ghost mut names: Seq<Seq<char>> = seq![];
    let mut i: usize = 0;
    while i < crew.len()
        invariant
            i <= crew.len(),
            names == directors_of(crew@.subrange(0, i as int)),
            count == names.len(),
            count <= i,
            joined@ == comma_joined(names),
            count > 0 ==> before_last@ == comma_joined(names.drop_last()) && last@ == names.last(),
        decreases crew.len() - i,
    {
        assert(crew@.subrange(0, i + 1).drop_last() =~= crew@.subrange(0, i as int));
        let member = &crew[i];
        if same_text(member.job.as_str(), "Director") {
            before_last = joined.clone();
            assert(before_last@ =~= joined@);
            if count > 0 {
                extend_chars(&mut joined, &chars_of(", "));
            }
            last = chars_of(member.name.as_str());
            extend_chars(&mut joined, &last);
            proof {
                let next = names.push(member.name@);
                assert(next.drop_last() =~= names);
                if names.len() == 0 {
                    assert(joined@ =~= comma_joined(next));
                }
                names = next;
            }
            count = count + 1;
        }
        i = i + 1;
    }
    assert(crew@.subrange(0, crew@.len() as int) =~= crew@);
    if count == 0 {
        return None;
    }
    if count == 1 {
        return Some(string_of(&joined));
    }
    let mut line = before_last;
    extend_chars(&mut line, &chars_of(" and "));
    extend_chars(&mut line, &last);
    Some(string_of(&line))
}

proof fn lemma_settled_clears(s: Seq<char>)
    ensures
        !has_leftover(settled(s)),
    decreases s.len(),
{
    lemma_settle_step_shrinks(s);
    if occurs_in(s, year_token()) {
        lemma_settled_clears(replace_all(s, year_token(), seq![]));
    } else if occurs_in(s, director_token()) {
        lemma_settled_clears(replace_all(s, director_token(), seq![]));
    } else if has_gap(s) {
        lemma_settled_clears(gaps_closed_from(s, 0));
    }
}

proof fn lemma_spaces_in_slice(s: Seq<char>, a: int, b: int, m: int)
    requires
        0 <= a <= b <= s.len(),
        0 <= m,
    ensures
        m + spaces_from(s.subrange(a, b), m) < b - a ==> spaces_from(s.subrange(a, b), m)
            == spaces_from(s, a + m),
    decreases b - a - m,
{
    let t = s.subrange(a, b);
    if m < t.len() {
        assert(t[m] == s[a + m]);
        lemma_spaces_in_slice(s, a, b, m + 1);
    }
}

/// A slice of a text without gaps between dashes has none either.
proof fn lemma_no_gap_in_slice(s: Seq<char>, a: int, b: int)
    requires
        0 <= a <= b <= s.len(),
        !has_gap(s),
    ensures
        !has_gap(s.subrange(a, b)),
{
    let t = s.subrange(a, b);
    assert forall|i: int| #[trigger] gap_at(t, i) == 0 by {
        if gap_at(t, i) > 0 {
            let k = spaces_from(t, i + 1);
            lemma_spaces_in_slice(s, a, b, i + 1);
            assert(t[i] == s[a + i]);
            assert(t[i + 1 + k] == s[a + i + 1 + k]);
            assert(gap_at(s, a + i) > 0);
        }
    }
}

proof fn lemma_trim_start_suffix(s: Seq<char>) -> (k: int)
    ensures
        0 <= k <= s.len(),
        trim_start(s) == s.subrange(k, s.len() as int),
        k < s.len() ==> !is_separator(s[k]),
    decreases s.len(),
{
    if s.len() > 0 && is_separator(s[0]) {
        let t = s.subrange(1, s.len() as int);
        let j = lemma_trim_start_suffix(t);
        assert(t.subrange(j, t.len() as int) =~= s.subrange(j + 1, s.len() as int));
        if j < t.len() {
            assert(t[j] == s[j + 1]);
        }
        j + 1
    } else {
        assert(s.subrange(0, s.len() as int) =~= s);
        0
    }
}

proof fn lemma_trim_end_prefix(s: Seq<char>) -> (k: int)
    ensures
        0 <= k <= s.len(),
        trim_end(s) == s.subrange(0, k),
        k > 0 ==> !is_separator(s[k - 1]),
    decreases s.len(),
{
    if s.len() > 0 && is_separator(s.last()) {
        let t = s.drop_last();
        let j = lemma_trim_end_prefix(t);
        assert(t.subrange(0, j) =~= s.subrange(0, j));
        if j > 0 {
            assert(t[j - 1] == s[j - 1]);
        }
        j
    } else {
        assert(s.subrange(0, s.len() as int) =~= s);
        s.len() as int
    }
}

/// Trimming takes out a slice that neither starts nor ends with a dash or space.
proof fn lemma_trimmed_slice(s: Seq<char>) -> (ab: (int, int))
    ensures
        0 <= ab.0 <= ab.1 <= s.len(),
        trimmed(s) == s.subrange(ab.0, ab.1),
        trimmed(s).len() > 0 ==> !is_separator(trimmed(s)[0]) && !is_separator(
            trimmed(s).last(),
        ),
{
    let a = lemma_trim_start_suffix(s);
    let u = s.subrange(a, s.len() as int);
    let k = lemma_trim_end_prefix(u);
    assert(u.subrange(0, k) =~= s.subrange(a, a + k));
    if k > 0 {
        assert(u[0] == s[a]);
        assert(u[k - 1] == s[a + k - 1]);
    }
    (a, a + k)
}

/// The name a pattern gives holds no year or director placeholder and no
/// dash, spaces and dash in a row, and neither starts nor ends with a dash
/// or a space, whatever the pattern and the entry.
pub proof fn lemma_rendered_is_tidy(entry: MovieEntry, format: Seq<char>)
    ensures
        !occurs_in(entry.file_name(format), year_token()),
        !occurs_in(entry.file_name(format), director_token()),
        !has_gap(entry.file_name(format)),
        !occurs_in(entry.file_name(format), dash_gap()),
        entry.file_name(format).len() > 0 ==> !is_separator(entry.file_name(format)[0])
            && !is_separator(entry.file_name(format).last()),
{
    let raw = substituted(
        format,
        title_field(entry.title@),
        text_or_empty(entry.year),
        director_field(entry.director),
    );
    let m = settled(raw);
    lemma_settled_clears(raw);
    let ab = lemma_trimmed_slice(m);
    lemma_absent_from_slice(m, ab.0, ab.1, year_token());
    lemma_absent_from_slice(m, ab.0, ab.1, director_token());
    lemma_no_gap_in_slice(m, ab.0, ab.1);
    let r = m.subrange(ab.0, ab.1);
    assert forall|i: int| !occurs_at(r, i, dash_gap()) by {
        if occurs_at(r, i, dash_gap()) {
            assert(r.subrange(i, i + 3) == dash_gap());
            assert(r[i] == '-' && r[i + 1] == ' ' && r[i + 2] == '-');
            assert(spaces_from(r, i + 2) == 0);
            assert(spaces_from(r, i + 1) == 1);
            assert(gap_at(r, i) > 0);
        }
    }
}

/// With the pattern `{title}` the title comes through as it goes into a
/// file name, where it is already tidy: it holds no year or director
/// placeholder and no gap between dashes, and neither starts nor ends with a
/// dash or a space.
pub proof fn lemma_tidy_title_survives(entry: MovieEntry)
    requires
        !has_leftover(title_field(entry.title@)),
        title_field(entry.title@).len() > 0 ==> !is_separator(title_field(entry.title@)[0])
            && !is_separator(title_field(entry.title@).last()),
    ensures
        entry.file_name(title_token()) == title_field(entry.title@),
{
    let t = title_field(entry.title@);
    let p = title_token();
    assert(p.subrange(0, 7) =~= p);
    assert(p.subrange(7, 7) =~= Seq::<char>::empty());
    assert(t + Seq::<char>::empty() =~= t);
    assert(boxed(title_token()).len() == 9 && boxed(year_token()).len() == 8 && boxed(
        director_token(),
    ).len() == 12);
    assert(substituted(
        Seq::<char>::empty(),
        t,
        text_or_empty(entry.year),
        director_field(entry.director),
    ) == Seq::<char>::empty());
    assert(substituted(p, t, text_or_empty(entry.year), director_field(entry.director)) == t);
    assert(settled(t) == t);
    let ab = lemma_trimmed_slice(t);
    let a = lemma_trim_start_suffix(t);
    if t.len() > 0 {
        assert(a == 0);
    }
    assert(trim_start(t) =~= t);
    let k = lemma_trim_end_prefix(t);
    if t.len() > 0 {
        assert(k == t.len());
    }
    assert(trim_end(t) =~= t);
}

} // verus!
