//! The category of each emoji, read from the CLDR `labels.txt` list.
//!
//! A data line holds, separated by `;` or tabs, a Unicode set pattern such
//! as `[😀-😆]` and the name of a category; lines that start with `#` and
//! empty lines are skipped. The sets are expanded by ICU.
use vstd::prelude::*;
use crate::statuses::is_data_line;
use crate::table::TextMap;
use crate::text::{chars_of, lines_of, lines_seq, push_char, split_on, split_seq, views, string_of};

verus! {

/// What ICU's `unicodeset_parse::parse` gives for a pattern: the strings
/// of the set, then its code points, each in ICU's order; `None` where the
/// pattern does not parse.
pub uninterp spec fn unicode_set(pattern: Seq<char>) -> Option<(Seq<Seq<char>>, Seq<char>)>;

/// `icu_experimental::unicodeset_parse::parse`: the strings and the code
/// points of the set that a pattern describes. The contract names the
/// result (`unicode_set`) and says no more of it.
#[verifier::external_body]
pub(crate) fn parse_unicode_set(pattern: &str) -> (r: Option<(Vec<String>, Vec<char>)>)
    ensures
        match r {
            Some(p) => unicode_set(pattern@) == Some((views(p.0@), p.1@)),
            None => unicode_set(pattern@) is None,
        },
{
    match icu_experimental::unicodeset_parse::parse(pattern) {
        Ok((set, _)) => Some((
            set.strings().iter().map(|s| s.to_string()).collect(),
            set.code_points().iter_chars().collect(),
        )),
        Err(_) => None,
    }
}

/// The members of a set, in the order in which they are listed: its
/// strings, then its code points each as a one-character text.
pub open spec fn set_members(set: (Seq<Seq<char>>, Seq<char>)) -> Seq<Seq<char>> {
    set.0 + set.1.map_values(|c: char| seq![c])
}

/// Tabs read as semicolons: both separate the fields of a line.
pub open spec fn semicolon_for_tab(c: char) -> char {
    if c == '\t' {
        ';'
    } else {
        c
    }
}

/// The non-empty parts among the first `n`.
pub open spec fn nonempty_upto(parts: Seq<Seq<char>>, n: int) -> Seq<Seq<char>>
    decreases n,
{
    if n <= 0 {
        seq![]
    } else {
        nonempty_upto(parts, n - 1) + if parts[n - 1].len() > 0 {
            seq![parts[n - 1]]
        } else {
            seq![]
        }
    }
}

/// The non-empty fields of a line, separated by `;` or tabs.
pub open spec fn label_parts(l: Seq<char>) -> Seq<Seq<char>> {
    let p = split_seq(l.map_values(|c: char| semicolon_for_tab(c)), seq![';']);
    nonempty_upto(p, p.len() as int)
}

/// Every data line of the list has at least two fields.
pub open spec fn labels_well_formed(content: Seq<char>) -> bool {
    let lines = lines_seq(content);
    forall|i: int|
        0 <= i < lines.len() && is_data_line(#[trigger] lines[i]) ==> label_parts(lines[i]).len()
            >= 2
}

/// The non-empty fields of a line.
pub fn label_fields(l: &String) -> (r: Vec<String>)
    ensures
        views(r@) == label_parts(l@),
{
    let v = chars_of(l.as_str());
    let mut w: Vec<char> = Vec::new();
    let mut i: usize = 0;
    while i < v.len()
        invariant
            i <= v.len(),
            w@ == v@.take(i as int).map_values(|c: char| semicolon_for_tab(c)),
        decreases v.len() - i,
    {
        let c = if v[i] == '\t' {
            ';'
        } else {
            v[i]
        };
        w.push(c);
        i = i + 1;
        assert(w@ =~= v@.take(i as int).map_values(|c: char| semicolon_for_tab(c)));
    }
    assert(v@.take(v.len() as int) =~= v@);
    let parts = split_on(&w, ';');
    let ghost p = views(parts@);
    let mut out: Vec<String> = Vec::new();
    let mut k: usize = 0;
    while k < parts.len()
        invariant
            k <= parts.len(),
            p == views(parts@),
            views(out@) == nonempty_upto(p, k as int),
        decreases parts.len() - k,
    {
        assert(p[k as int] == parts@[k as int]@);
        if !parts[k].as_str().is_empty() {
            let s = parts[k].clone();
            assert(views(out@.push(s)) =~= views(out@) + seq![s@]);
            out.push(s);
        } else {
            assert(nonempty_upto(p, k + 1) =~= nonempty_upto(p, k as int));
        }
        k = k + 1;
    }
    out
}

/// The emojis of each category, and the category of each emoji.
pub struct Labels {
    pub categories: TextMap<Vec<String>>,
    pub emojis: TextMap<String>,
}

pub struct LabelsModel {
    pub categories: Map<Seq<char>, Seq<Seq<char>>>,
    pub emojis: Map<Seq<char>, Seq<char>>,
}

impl Labels {
    pub open spec fn model(&self) -> LabelsModel {
        LabelsModel {
            categories: self.categories@.map_values(|v: Vec<String>| views(v@)),
            emojis: self.emojis@.map_values(|s: String| s@),
        }
    }
}

/// A line whose set pattern ICU does not parse.
#[derive(Clone, Copy, Debug, PartialEq, Eq, Structural)]
pub enum LabelsError {
    UnparsableSet,
}

/// The emoji `em` is listed in the category `cat`.
pub open spec fn add_label(st: LabelsModel, em: Seq<char>, cat: Seq<char>) -> LabelsModel {
    LabelsModel {
        categories: st.categories.insert(
            cat,
            (if st.categories.dom().contains(cat) {
                st.categories[cat]
            } else {
                seq![]
            }).push(em),
        ),
        emojis: st.emojis.insert(em, cat),
    }
}

/// The first `n` members listed in `cat`.
pub open spec fn add_labels(st: LabelsModel, ems: Seq<Seq<char>>, cat: Seq<char>, n: int) -> LabelsModel
    decreases n,
{
    if n <= 0 {
        st
    } else {
        add_label(add_labels(st, ems, cat, n - 1), ems[n - 1], cat)
    }
}

/// The labels of the first `n` lines, or the error of the first line whose
/// set does not parse.
pub open spec fn labels_upto(lines: Seq<Seq<char>>, n: int) -> Result<LabelsModel, LabelsError>
    decreases n,
{
    if n <= 0 {
        Ok(LabelsModel { categories: Map::empty(), emojis: Map::empty() })
    } else {
        match labels_upto(lines, n - 1) {
            Err(e) => Err(e),
            Ok(st) => if is_data_line(lines[n - 1]) {
                let parts = label_parts(lines[n - 1]);
                match unicode_set(parts[0]) {
                    None => Err(LabelsError::UnparsableSet),
                    Some(set) => Ok(add_labels(st, set_members(set), parts[1], set_members(set).len() as int)),
                }
            } else {
                Ok(st)
            },
        }
    }
}

/// The labels that the list `content` gives.
pub open spec fn spec_labels(content: Seq<char>) -> Result<LabelsModel, LabelsError> {
    labels_upto(lines_seq(content), lines_seq(content).len() as int)
}

proof fn lemma_labels_err(lines: Seq<Seq<char>>, i: int, n: int)
    requires
        0 <= i <= n,
        labels_upto(lines, i) is Err,
    ensures
        labels_upto(lines, n) == labels_upto(lines, i),
    decreases n - i,
{
    if i < n {
        lemma_labels_err(lines, i, n - 1);
    }
}

/// The strings of a list, copied.
pub fn copy_strings(v: &Vec<String>) -> (r: Vec<String>)
    ensures
        views(r@) == views(v@),
{
    let mut out: Vec<String> = Vec::new();
    let mut i: usize = 0;
    while i < v.len()
        invariant
            i <= v.len(),
            views(out@) == views(v@).take(i as int),
        decreases v.len() - i,
    {
        let s = v[i].clone();
        proof {
            assert(views(out@.push(s)) =~= views(out@).push(s@));
            assert(views(v@).take(i + 1) =~= views(v@).take(i as int).push(v@[i as int]@));
        }
        out.push(s);
        i = i + 1;
    }
    assert(views(v@).take(v.len() as int) =~= views(v@));
    out
}

impl Labels {
    /// Lists the emoji `em` in the category `cat`.
    fn insert(&mut self, em: &String, cat: &String)
        ensures
            final(self).model() == add_label(old(self).model(), em@, cat@),
    {
        let mut list = match self.categories.get(cat.as_str()) {
            Some(v) => copy_strings(v),
            None => Vec::new(),
        };
        let ghost l0 = views(list@);
        let ghost before = old(self).model();
        assert(l0 == (if before.categories.dom().contains(cat@) {
            before.categories[cat@]
        } else {
            seq![]
        }));
        list.push(em.clone());
        assert(views(list@) =~= l0.push(em@));
        let ghost c0 = self.categories@;
        self.categories.insert(cat.clone(), list);
        let ghost e0 = self.emojis@;
        self.emojis.insert(em.clone(), cat.clone());
        assert(self.model().categories =~= add_label(old(self).model(), em@, cat@).categories);
        assert(self.model().emojis =~= add_label(old(self).model(), em@, cat@).emojis);
    }
}

/// The members of a set, in listed order.
pub fn members_of(set: &(Vec<String>, Vec<char>)) -> (r: Vec<String>)
    ensures
        views(r@) == set_members((views(set.0@), set.1@)),
{
    let mut out = copy_strings(&set.0);
    let mut i: usize = 0;
    while i < set.1.len()
        invariant
            i <= set.1.len(),
            views(out@) == views(set.0@) + set.1@.take(i as int).map_values(|c: char| seq![c]),
        decreases set.1.len() - i,
    {
        let mut s = String::new();
        push_char(&mut s, set.1[i]);
        assert(s@ =~= seq![set.1@[i as int]]);
        let ghost o0 = views(out@);
        out.push(s);
        assert(views(out@) =~= o0.push(s@));
        i = i + 1;
        assert(set.1@.take(i as int).map_values(|c: char| seq![c]) =~= set.1@.take(i - 1).map_values(
            |c: char| seq![c],
        ).push(seq![set.1@[i - 1]]));
    }
    assert(set.1@.take(set.1.len() as int) =~= set.1@);
    out
}

/// The categories and emojis of the list `content`, or the error that
/// stops the reading.
fn read_labels(content: &str) -> (r: Result<Labels, LabelsError>)
    requires
        labels_well_formed(content@),
    ensures
        match r {
            Ok(l) => spec_labels(content@) == Ok::<LabelsModel, LabelsError>(l.model()),
            Err(e) => spec_labels(content@) == Err::<LabelsModel, LabelsError>(e),
        },
{
    let lines = lines_of(&chars_of(content));
    let ghost ls = lines_seq(content@);
    let mut labels = Labels { categories: TextMap::new(), emojis: TextMap::new() };
    assert(labels.model().categories =~= Map::empty());
    assert(labels.model().emojis =~= Map::empty());
    let mut i: usize = 0;
    while i < lines.len()
        invariant
            i <= lines.len(),
            views(lines@) == ls,
            ls == lines_seq(content@),
            labels_well_formed(content@),
            labels_upto(ls, i as int) == Ok::<LabelsModel, LabelsError>(labels.model()),
        decreases lines.len() - i,
    {
        assert(ls[i as int] == lines@[i as int]@);
        let v = chars_of(lines[i].as_str());
        if !(v.len() == 0 || v[0] == '#') {
            let parts = label_fields(&lines[i]);
            assert(views(parts@)[0] == parts@[0]@);
            assert(views(parts@)[1] == parts@[1]@);
            let set = match parse_unicode_set(parts[0].as_str()) {
                Some(s) => s,
                None => {
                    proof {
                        lemma_labels_err(ls, i + 1, ls.len() as int);
                    }
                    return Err(LabelsError::UnparsableSet);
                },
            };
            let ems = members_of(&set);
            let ghost st0 = labels.model();
            let mut k: usize = 0;
            while k < ems.len()
                invariant
                    k <= ems.len(),
                    parts@.len() >= 2,
                    labels.model() == add_labels(st0, views(ems@), parts@[1]@, k as int),
                decreases ems.len() - k,
            {
                assert(views(ems@)[k as int] == ems@[k as int]@);
                labels.insert(&ems[k], &parts[1]);
                k = k + 1;
            }
        }
        i = i + 1;
    }
    Ok(labels)
}

/// The category of each emoji of the list `content` (the text of
/// `labels.txt`), and the emojis of each category in listed order. Each set
/// of the list must parse.
pub fn get_labels(content: &str) -> (r: Labels)
    requires
        labels_well_formed(content@),
        spec_labels(content@) is Ok,
    ensures
        spec_labels(content@) == Ok::<LabelsModel, LabelsError>(r.model()),
{
    match read_labels(content) {
        Ok(v) => v,
        Err(_) => {
            assert(false);
            Labels { categories: TextMap::new(), emojis: TextMap::new() }
        },
    }
}

/// The categories and emojis of the list `content` as `get_labels` gives
/// them, or the error for which they cannot be given.
pub fn get_labels_checked(content: &str) -> (r: Result<Labels, LabelsError>)
    requires
        labels_well_formed(content@),
    ensures
        match r {
            Ok(l) => spec_labels(content@) == Ok::<LabelsModel, LabelsError>(l.model()),
            Err(e) => spec_labels(content@) == Err::<LabelsModel, LabelsError>(e),
        },
{
    match read_labels(content) {
        Err(e) => Err(e),
        Ok(_) => Ok(get_labels(content)),
    }
}

/// Whether every data line of `content` has at least two fields, as the
/// readers of the list require.
pub fn labels_ok(content: &str) -> (r: bool)
    ensures
        r == labels_well_formed(content@),
{
    let lines = lines_of(&chars_of(content));
    let ghost ls = lines_seq(content@);
    let mut i: usize = 0;
    while i < lines.len()
        invariant
            i <= lines.len(),
            views(lines@) == ls,
            ls == lines_seq(content@),
            forall|j: int|
                0 <= j < i && is_data_line(#[trigger] ls[j]) ==> label_parts(ls[j]).len() >= 2,
        decreases lines.len() - i,
    {
        assert(ls[i as int] == lines@[i as int]@);
        let v = chars_of(lines[i].as_str());
        if !(v.len() == 0 || v[0] == '#') {
            let parts = label_fields(&lines[i]);
            if parts.len() < 2 {
                return false;
            }
        }
        i = i + 1;
    }
    true
}

/// The two maps of the labels agree: the category of each emoji lists
/// it, and each emoji that a category lists has a category.
pub open spec fn labels_agree(st: LabelsModel) -> bool {
    &&& forall|e: Seq<char>|
        #[trigger] st.emojis.dom().contains(e) ==> st.categories.dom().contains(st.emojis[e])
            && st.categories[st.emojis[e]].contains(e)
    &&& forall|c: Seq<char>, k: int|
        st.categories.dom().contains(c) && 0 <= k < st.categories[c].len() ==> st.emojis.dom().contains(
            #[trigger] st.categories[c][k],
        )
}

proof fn lemma_add_label_agree(st: LabelsModel, em: Seq<char>, cat: Seq<char>)
    requires
        labels_agree(st),
    ensures
        labels_agree(add_label(st, em, cat)),
{
    let nx = add_label(st, em, cat);
    let old_list: Seq<Seq<char>> = if st.categories.dom().contains(cat) {
        st.categories[cat]
    } else {
        seq![]
    };
    assert(nx.categories[cat] == old_list.push(em));
    assert forall|e: Seq<char>| #[trigger] nx.emojis.dom().contains(e) implies nx.categories.dom().contains(
        nx.emojis[e],
    ) && nx.categories[nx.emojis[e]].contains(e) by {
        if e == em {
            assert(nx.categories[cat][old_list.len() as int] == em);
        } else {
            let c = st.emojis[e];
            assert(st.categories[c].contains(e));
            if c == cat {
                let k = choose|k: int| 0 <= k < st.categories[c].len() && st.categories[c][k] == e;
                assert(nx.categories[cat][k] == e);
            }
        }
    }
    assert forall|c: Seq<char>, k: int|
        nx.categories.dom().contains(c) && 0 <= k < nx.categories[c].len() implies nx.emojis.dom().contains(
        #[trigger] nx.categories[c][k],
    ) by {
        if c == cat && k == old_list.len() {
        } else if c == cat {
            assert(nx.categories[c][k] == st.categories[c][k]);
        } else {
            assert(nx.categories[c][k] == st.categories[c][k]);
        }
    }
}

proof fn lemma_add_labels_agree(st: LabelsModel, ems: Seq<Seq<char>>, cat: Seq<char>, n: int)
    requires
        labels_agree(st),
    ensures
        labels_agree(add_labels(st, ems, cat, n)),
    decreases n,
{
    if n > 0 {
        lemma_add_labels_agree(st, ems, cat, n - 1);
        lemma_add_label_agree(add_labels(st, ems, cat, n - 1), ems[n - 1], cat);
    }
}

proof fn lemma_labels_upto_agree(lines: Seq<Seq<char>>, n: int)
    ensures
        labels_upto(lines, n) matches Ok(st) ==> labels_agree(st),
    decreases n,
{
    if n > 0 {
        lemma_labels_upto_agree(lines, n - 1);
        if let Ok(st) = labels_upto(lines, n - 1) {
            if is_data_line(lines[n - 1]) {
                let parts = label_parts(lines[n - 1]);
                if let Some(set) = unicode_set(parts[0]) {
                    lemma_add_labels_agree(st, set_members(set), parts[1], set_members(set).len() as int);
                }
            }
        }
    }
}

/// The two maps of the labels agree: the category of each emoji (that of
/// the last line whose set holds it) lists the emoji, and every emoji that
/// a category lists has a category.
pub proof fn law_labels_agree(content: Seq<char>)
    ensures
        spec_labels(content) matches Ok(st) ==> labels_agree(st),
{
    lemma_labels_upto_agree(lines_seq(content), lines_seq(content).len() as int);
}

} // verus!
