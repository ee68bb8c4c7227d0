use vstd::prelude::*;

use crate::text::{chars_of, same_chars};

verus! {

/// A remembered decision: the stem of a file name and the base name chosen
/// for it, `None` meaning that the stem is to be ignored.
pub type Decision = (Seq<char>, Option<Seq<char>>);

pub open spec fn opt_text(t: Option<String>) -> Option<Seq<char>> {
    match t {
        Some(s) => Some(s@),
        None => None,
    }
}

/// Position of the decision for `stem`, or -1 when there is none.
pub open spec fn position_of(s: Seq<Decision>, stem: Seq<char>) -> int
    decreases s.len(),
{
    if s.len() == 0 {
        -1
    } else if s.last().0 == stem {
        s.len() - 1
    } else {
        position_of(s.drop_last(), stem)
    }
}

/// The decision remembered for `stem`, if any.
pub open spec fn decision_for(s: Seq<Decision>, stem: Seq<char>) -> Option<Option<Seq<char>>> {
    if position_of(s, stem) >= 0 {
        Some(s[position_of(s, stem)].1)
    } else {
        None
    }
}

/// The decisions after remembering `name` for `stem`: an earlier decision
/// for the stem is replaced, else the new one goes last.
pub open spec fn with_decision(s: Seq<Decision>, stem: Seq<char>, name: Option<Seq<char>>) -> Seq<
    Decision,
> {
    if position_of(s, stem) >= 0 {
        s.update(position_of(s, stem), (stem, name))
    } else {
        s.push((stem, name))
    }
}

/// Whether no stem appears twice.
pub open spec fn stems_unique(s: Seq<Decision>) -> bool {
    forall|i: int, j: int| 0 <= i < s.len() && 0 <= j < s.len() && i != j ==> s[i].0 != s[j].0
}

/// The chosen base names, in order, leaving out the ignored stems.
pub open spec fn chosen_names(s: Seq<Decision>) -> Seq<Seq<char>>
    decreases s.len(),
{
    if s.len() == 0 {
        seq![]
    } else {
        match s.last().1 {
            Some(n) => chosen_names(s.drop_last()).push(n),
            None => chosen_names(s.drop_last()),
        }
    }
}

/// The name a directory takes: the chosen name when exactly one stem has
/// one, else none.
pub open spec fn sole_name(s: Seq<Decision>) -> Option<Seq<char>> {
    if chosen_names(s).len() == 1 {
        Some(chosen_names(s)[0])
    } else {
        None
    }
}

/// What became of one file: its stem, the base name chosen for it, and
/// whether that is to be remembered for the other files of the directory.
pub struct FileOutcome {
    pub stem: String,
    pub name: Option<String>,
    pub remember: bool,
}

/// How the handling of one file ended.
pub enum FileEnd {
    /// An earlier file with the same stem was ignored.
    IgnoredBefore,
    /// The file name could not be read.
    Unparseable,
    /// The extension is not one that is handled.
    Unsupported,
    /// The search found nothing.
    NoMatch,
    /// The user cancelled the choice.
    Cancelled,
    /// The choice could not be made for another reason.
    PromptFailed,
    /// A base name was chosen.
    Named(String),
    /// A base name was chosen, but no language for the subtitle file, which
    /// is left as it is.
    LanguageCancelled(String),
}

/// The outcome of a file that ended as `end`: a chosen name is remembered,
/// also where the subtitle's language was then not chosen, since the movie
/// stands for the other files of the stem; a cancelled choice of movie is
/// remembered as "ignore"; nothing else is remembered.
pub fn file_outcome(stem: String, end: FileEnd) -> (r: FileOutcome)
    ensures
        r.stem@ == stem@,
        end matches FileEnd::Named(n) ==> (r.remember && (r.name matches Some(m) && m@ == n@)),
        end matches FileEnd::LanguageCancelled(n) ==> (r.remember && (r.name matches Some(m) && m@
            == n@)),
        end is Cancelled ==> r.remember && r.name is None,
        !(end is Named || end is LanguageCancelled || end is Cancelled) ==> !r.remember && r.name is None,
{
    match end {
        FileEnd::Named(n) => FileOutcome { stem, name: Some(n), remember: true },
        FileEnd::LanguageCancelled(n) => FileOutcome { stem, name: Some(n), remember: true },
        FileEnd::Cancelled => FileOutcome { stem, name: None, remember: true },
        _ => FileOutcome { stem, name: None, remember: false },
    }
}

/// The decisions taken so far in one directory, by stem.
pub struct DecisionMap {
    entries: Vec<(String, Option<String>)>,
}

impl View for DecisionMap {
    type V = Seq<Decision>;

    closed spec fn view(&self) -> Seq<Decision> {
        self.entries@.map_values(|e: (String, Option<String>)| (e.0@, opt_text(e.1)))
    }
}

fn clone_name(t: &Option<String>) -> (r: Option<String>)
    ensures
        opt_text(r) == opt_text(*t),
{
    match t {
        Some(s) => Some(s.clone()),
        None => None,
    }
}

impl DecisionMap {
    /// Whether no stem is remembered twice.
    pub open spec fn wf(&self) -> bool {
        stems_unique(self@)
    }

    /// An empty map.
    pub fn new() -> (r: DecisionMap)
        ensures
            r@ == Seq::<Decision>::empty(),
            r.wf(),
    {
        let r = DecisionMap { entries: Vec::new() };
        assert(r@ =~= Seq::<Decision>::empty());
        r
    }

    fn position(&self, stem: &Vec<char>) -> (r: Option<usize>)
        ensures
            match r {
                Some(k) => k == position_of(self@, stem@) && k < self@.len(),
                None => position_of(self@, stem@) == -1,
            },
    {
        let mut i: usize = self.entries.len();
        assert(self@.subrange(0, self@.len() as int) =~= self@);
        while i > 0
            invariant
                i <= self.entries.len(),
                self@.len() == self.entries.len(),
                position_of(self@, stem@) == position_of(self@.subrange(0, i as int), stem@),
            decreases i,
        {
            let ghost t = self@.subrange(0, i as int);
            assert(t.drop_last() =~= self@.subrange(0, i - 1));
            let key = chars_of(self.entries[i - 1].0.as_str());
            if same_chars(&key, stem) {
                return Some(i - 1);
            }
            i = i - 1;
        }
        assert(self@.subrange(0, 0).len() == 0);
        None
    }

    /// The decision remembered for `stem`: `None` if there is none,
    /// `Some(None)` if the stem is to be ignored.
    pub fn lookup(&self, stem: &str) -> (r: Option<Option<String>>)
        ensures
            match r {
                Some(n) => decision_for(self@, stem@) == Some(opt_text(n)),
                None => decision_for(self@, stem@) is None,
            },
    {
        let key = chars_of(stem);
        match self.position(&key) {
            Some(k) => Some(clone_name(&self.entries[k].1)),
            None => None,
        }
    }

    /// Remembers what became of a file, where the outcome asks for it.
    pub fn remember(&mut self, outcome: FileOutcome)
        requires
            old(self).wf(),
        ensures
            final(self).wf(),
            outcome.remember ==> final(self)@ == with_decision(
                old(self)@,
                outcome.stem@,
                opt_text(outcome.name),
            ),
            !outcome.remember ==> final(self)@ == old(self)@,
    {
        if !outcome.remember {
            return;
        }
        let key = chars_of(outcome.stem.as_str());
        let ghost entry: Decision = (outcome.stem@, opt_text(outcome.name));
        match self.position(&key) {
            Some(k) => {
                proof {
                    lemma_position_in_range(old(self)@, entry.0);
                }
                self.entries.set(k, (outcome.stem, outcome.name));
                assert(self@ =~= old(self)@.update(k as int, entry));
            },
            None => {
                self.entries.push((outcome.stem, outcome.name));
                assert(self@ =~= old(self)@.push(entry));
                proof {
                    lemma_absent_stem(old(self)@, entry.0);
                }
            },
        }
    }

    /// The name a directory takes after all its files: the chosen name when
    /// exactly one stem has one.
    pub fn directory_name(&self) -> (r: Option<String>)
        ensures
            opt_text(r) == sole_name(self@),
    {
        let mut count: usize = 0;
        let mut first: Option<String> = None;
        let mut i: usize = 0;
        while i < self.entries.len()
            invariant
                i <= self.entries.len(),
                self@.len() == self.entries.len(),
                count == chosen_names(self@.subrange(0, i as int)).len(),
                count <= i,
                count == 0 ==> first is None,
                count > 0 ==> opt_text(first) == Some(
                    chosen_names(self@.subrange(0, i as int))[0],
                ),
            decreases self.entries.len() - i,
        {
            let ghost before = self@.subrange(0, i as int);
            assert(self@.subrange(0, i + 1).drop_last() =~= before);
            match &self.entries[i].1 {
                Some(n) => {
                    if count == 0 {
                        first = Some(n.clone());
                    }
                    count = count + 1;
                },
                None => {},
            }
            i = i + 1;
        }
        assert(self@.subrange(0, self@.len() as int) =~= self@);
        if count == 1 {
            first
        } else {
            None
        }
    }
}

proof fn lemma_position_in_range(s: Seq<Decision>, stem: Seq<char>)
    ensures
        -1 <= position_of(s, stem) < s.len(),
        position_of(s, stem) >= 0 ==> s[position_of(s, stem)].0 == stem,
    decreases s.len(),
{
    if s.len() > 0 && s.last().0 != stem {
        lemma_position_in_range(s.drop_last(), stem);
    }
}

proof fn lemma_absent_stem(s: Seq<Decision>, stem: Seq<char>)
    requires
        position_of(s, stem) == -1,
    ensures
        forall|i: int| 0 <= i < s.len() ==> s[i].0 != stem,
    decreases s.len(),
{
    if s.len() > 0 {
        lemma_absent_stem(s.drop_last(), stem);
        assert forall|i: int| 0 <= i < s.len() implies s[i].0 != stem by {
            if i < s.len() - 1 {
                assert(s[i] == s.drop_last()[i]);
            }
        }
    }
}

/// The decisions after the outcomes of a directory's files, in order.
pub open spec fn after_outcomes(s: Seq<Decision>, outs: Seq<FileOutcome>) -> Seq<Decision>
    decreases outs.len(),
{
    if outs.len() == 0 {
        s
    } else if outs.last().remember {
        with_decision(
            after_outcomes(s, outs.drop_last()),
            outs.last().stem@,
            opt_text(outs.last().name),
        )
    } else {
        after_outcomes(s, outs.drop_last())
    }
}

proof fn lemma_no_names_chosen(s: Seq<Decision>)
    requires
        forall|i: int| 0 <= i < s.len() ==> (#[trigger] s[i]).1 is None,
    ensures
        chosen_names(s).len() == 0,
    decreases s.len(),
{
    if s.len() > 0 {
        assert(s[s.len() - 1].1 is None);
        assert forall|i: int| 0 <= i < s.drop_last().len() implies (
        #[trigger] s.drop_last()[i]).1 is None by {
            assert(s.drop_last()[i] == s[i]);
        }
        lemma_no_names_chosen(s.drop_last());
    }
}

proof fn lemma_all_names_chosen(s: Seq<Decision>)
    requires
        forall|i: int| 0 <= i < s.len() ==> (#[trigger] s[i]).1 is Some,
    ensures
        chosen_names(s).len() == s.len(),
    decreases s.len(),
{
    if s.len() > 0 {
        assert(s[s.len() - 1].1 is Some);
        assert forall|i: int| 0 <= i < s.drop_last().len() implies (
        #[trigger] s.drop_last()[i]).1 is Some by {
            assert(s.drop_last()[i] == s[i]);
        }
        lemma_all_names_chosen(s.drop_last());
    }
}

proof fn lemma_values_kept(s: Seq<Decision>, outs: Seq<FileOutcome>, named: bool)
    requires
        forall|i: int| 0 <= i < s.len() ==> ((#[trigger] s[i]).1 is Some <==> named),
        forall|i: int|
            0 <= i < outs.len() && (#[trigger] outs[i]).remember ==> (outs[i].name is Some
                <==> named),
    ensures
        forall|i: int|
            0 <= i < after_outcomes(s, outs).len() ==> ((#[trigger] after_outcomes(s, outs)[i]).1 is Some
                <==> named),
    decreases outs.len(),
{
    if outs.len() > 0 {
        assert forall|i: int|
            0 <= i < outs.drop_last().len() && (#[trigger] outs.drop_last()[i]).remember implies (
        outs.drop_last()[i].name is Some <==> named) by {
            assert(outs.drop_last()[i] == outs[i]);
        }
        lemma_values_kept(s, outs.drop_last(), named);
        let o = outs[outs.len() - 1];
        let prev = after_outcomes(s, outs.drop_last());
        if o.remember {
            lemma_position_in_range(prev, o.stem@);
        }
    }
}

proof fn lemma_stem_kept(s: Seq<Decision>, outs: Seq<FileOutcome>, k: int)
    requires
        0 <= k < outs.len(),
        outs[k].remember,
    ensures
        exists|p: int|
            0 <= p < after_outcomes(s, outs).len() && (#[trigger] after_outcomes(s, outs)[p]).0
                == outs[k].stem@,
    decreases outs.len(),
{
    let prev = after_outcomes(s, outs.drop_last());
    let o = outs[outs.len() - 1];
    lemma_position_in_range(prev, o.stem@);
    if k == outs.len() - 1 {
        let r = after_outcomes(s, outs);
        if position_of(prev, o.stem@) >= 0 {
            assert(r[position_of(prev, o.stem@)].0 == o.stem@);
        } else {
            assert(r[prev.len() as int].0 == o.stem@);
        }
    } else {
        assert(outs.drop_last()[k] == outs[k]);
        lemma_stem_kept(s, outs.drop_last(), k);
        let p = choose|p: int| 0 <= p < prev.len() && (#[trigger] prev[p]).0 == outs[k].stem@;
        let r = after_outcomes(s, outs);
        if o.remember {
            assert(r[p].0 == outs[k].stem@);
        } else {
            assert(r[p] == prev[p]);
        }
    }
}

proof fn lemma_with_decision_unique(s: Seq<Decision>, stem: Seq<char>, name: Option<Seq<char>>)
    requires
        stems_unique(s),
    ensures
        stems_unique(with_decision(s, stem, name)),
{
    lemma_position_in_range(s, stem);
    if position_of(s, stem) < 0 {
        lemma_absent_stem(s, stem);
    }
}

proof fn lemma_single_chosen(s: Seq<Decision>, stem: Seq<char>, b: Seq<char>, p: int)
    requires
        stems_unique(s),
        forall|i: int|
            0 <= i < s.len() ==> (((#[trigger] s[i]).1 is Some <==> s[i].0 == stem) && (s[i].1 is Some
                ==> s[i].1 == Some(b))),
        0 <= p < s.len(),
        s[p].0 == stem,
    ensures
        chosen_names(s) == seq![b],
    decreases s.len(),
{
    let n = s.len() - 1;
    let t = s.drop_last();
    assert forall|i: int| 0 <= i < t.len() implies t[i] == s[i] by {}
    if p == n {
        assert forall|i: int| 0 <= i < t.len() implies (#[trigger] t[i]).1 is None by {
            assert(t[i] == s[i]);
            assert(s[i].0 != s[n].0);
        }
        lemma_no_names_chosen(t);
        assert(chosen_names(s) =~= seq![b]);
    } else {
        assert(s[n].0 != s[p].0);
        assert(t[p] == s[p]);
        lemma_single_chosen(t, stem, b, p);
    }
}

proof fn lemma_one_stem_fold(outs: Seq<FileOutcome>, stem: Seq<char>, b: Seq<char>)
    requires
        forall|i: int|
            0 <= i < outs.len() && (#[trigger] outs[i]).remember ==> ((outs[i].name is Some
                <==> outs[i].stem@ == stem) && (outs[i].name matches Some(n) ==> n@ == b)),
    ensures
        stems_unique(after_outcomes(seq![], outs)),
        forall|i: int|
            0 <= i < after_outcomes(seq![], outs).len() ==> (((#[trigger] after_outcomes(
                seq![],
                outs,
            )[i]).1 is Some <==> after_outcomes(seq![], outs)[i].0 == stem) && (after_outcomes(
                seq![],
                outs,
            )[i].1 is Some ==> after_outcomes(seq![], outs)[i].1 == Some(b))),
    decreases outs.len(),
{
    if outs.len() > 0 {
        let rest = outs.drop_last();
        assert forall|i: int| 0 <= i < rest.len() && (#[trigger] rest[i]).remember implies ((
        rest[i].name is Some <==> rest[i].stem@ == stem) && (rest[i].name matches Some(n) ==> n@
            == b)) by {
            assert(rest[i] == outs[i]);
        }
        lemma_one_stem_fold(rest, stem, b);
        let prev = after_outcomes(seq![], rest);
        let o = outs[outs.len() - 1];
        if o.remember {
            lemma_with_decision_unique(prev, o.stem@, opt_text(o.name));
            lemma_position_in_range(prev, o.stem@);
        }
    }
}

/// A directory takes the name chosen for its one named stem, however many
/// of its files share that stem, where every other stem that was remembered
/// was remembered as ignored.
pub proof fn lemma_one_named_stem_names_directory(outs: Seq<FileOutcome>, j: int)
    requires
        0 <= j < outs.len(),
        outs[j].remember,
        outs[j].name is Some,
        forall|i: int|
            0 <= i < outs.len() && (#[trigger] outs[i]).remember ==> ((outs[i].name is Some
                <==> outs[i].stem@ == outs[j].stem@) && (outs[i].name matches Some(n) ==> n@
                == outs[j].name.unwrap()@)),
    ensures
        sole_name(after_outcomes(seq![], outs)) == Some(outs[j].name.unwrap()@),
{
    let stem = outs[j].stem@;
    let b = outs[j].name.unwrap()@;
    lemma_one_stem_fold(outs, stem, b);
    lemma_stem_kept(seq![], outs, j);
    let r = after_outcomes(seq![], outs);
    let p = choose|p: int| 0 <= p < r.len() && (#[trigger] r[p]).0 == stem;
    lemma_single_chosen(r, stem, b, p);
}

/// Where no file got a name, the directory takes none.
pub proof fn lemma_no_named_file_leaves_directory(outs: Seq<FileOutcome>)
    requires
        forall|i: int|
            0 <= i < outs.len() ==> !((#[trigger] outs[i]).remember && outs[i].name is Some),
    ensures
        sole_name(after_outcomes(seq![], outs)) is None,
{
    lemma_values_kept(seq![], outs, false);
    lemma_no_names_chosen(after_outcomes(seq![], outs));
}

/// Where two files with different stems got names, and no file was
/// remembered as ignored, the directory takes none.
pub proof fn lemma_two_named_files_leave_directory(outs: Seq<FileOutcome>, i: int, j: int)
    requires
        0 <= i < outs.len(),
        0 <= j < outs.len(),
        outs[i].remember,
        outs[j].remember,
        outs[i].stem@ != outs[j].stem@,
        forall|k: int| 0 <= k < outs.len() && (#[trigger] outs[k]).remember ==> outs[k].name is Some,
    ensures
        sole_name(after_outcomes(seq![], outs)) is None,
{
    let r = after_outcomes(seq![], outs);
    lemma_values_kept(seq![], outs, true);
    lemma_all_names_chosen(r);
    lemma_stem_kept(seq![], outs, i);
    lemma_stem_kept(seq![], outs, j);
    let p = choose|p: int| 0 <= p < r.len() && (#[trigger] r[p]).0 == outs[i].stem@;
    let q = choose|q: int| 0 <= q < r.len() && (#[trigger] r[q]).0 == outs[j].stem@;
    assert(p != q);
}

} // verus!
