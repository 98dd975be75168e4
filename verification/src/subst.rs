//! Grapheme substitution: a table parsed from `source:dest` lines maps each
//! grapheme cluster of a source to a replacement string, and lines are
//! rewritten cluster by cluster through that table.

use crate::assoc::{
    distinct_keys, lemma_assoc_map_dom, lemma_assoc_map_index, lemma_assoc_map_push,
    lemma_assoc_map_update, spec_assoc_map,
};
use crate::segment::{graphemes_of, split_graphemes};
use vstd::prelude::*;

verus! {

/// A fatal error in the startup configuration: a substitution line without
/// the `source:dest` separator.
#[derive(Debug, PartialEq, Eq, Structural)]
pub enum ConfigurationError {
    MissingSeparator,
}

/// A line split at its first occurrence of `c`: the part before, and all of
/// the rest; `None` when `c` does not occur.
pub open spec fn spec_split_first(l: Seq<char>, c: char) -> Option<(Seq<char>, Seq<char>)>
    decreases l.len(),
{
    if l.len() == 0 {
        None
    } else if l[0] == c {
        Some((Seq::empty(), l.drop_first()))
    } else {
        match spec_split_first(l.drop_first(), c) {
            None => None,
            Some((a, b)) => Some((seq![l[0]] + a, b)),
        }
    }
}

/// The `source` and `dest` parts of a substitution line: `source` runs to
/// the first colon, `dest` from there to the second colon or the end of the
/// line. A line without a colon does not parse.
pub open spec fn spec_parse_subst_line(l: Seq<char>) -> Option<(Seq<char>, Seq<char>)> {
    match spec_split_first(l, ':') {
        None => None,
        Some((source, rest)) => Some(
            (
                source,
                match spec_split_first(rest, ':') {
                    None => rest,
                    Some((dest, _)) => dest,
                },
            ),
        ),
    }
}

/// The entries of a substitution table, read as grapheme/replacement pairs.
pub open spec fn viewed_subst(entries: Seq<(String, String)>) -> Seq<(Seq<char>, Seq<char>)> {
    entries.map_values(|p: (String, String)| (p.0@, p.1@))
}

/// One parsed line folded into a table: every grapheme cluster of `source`
/// maps to `dest`, later lines overriding earlier ones.
pub open spec fn spec_line_added(
    m: Map<Seq<char>, Seq<char>>,
    source: Seq<char>,
    dest: Seq<char>,
) -> Map<Seq<char>, Seq<char>> {
    spec_graphemes_added(m, graphemes_of(source), dest)
}

/// Grapheme clusters inserted into a table one by one, all mapping to
/// `dest`.
pub open spec fn spec_graphemes_added(
    m: Map<Seq<char>, Seq<char>>,
    gs: Seq<Seq<char>>,
    dest: Seq<char>,
) -> Map<Seq<char>, Seq<char>>
    decreases gs.len(),
{
    if gs.len() == 0 {
        m
    } else {
        spec_graphemes_added(m, gs.drop_last(), dest).insert(gs.last(), dest)
    }
}

/// All substitution lines folded into a table, in order.
pub open spec fn spec_table_of(
    m: Map<Seq<char>, Seq<char>>,
    lines: Seq<Seq<char>>,
) -> Map<Seq<char>, Seq<char>>
    recommends
        forall|i: int| 0 <= i < lines.len() ==> spec_parse_subst_line(#[trigger] lines[i]) is Some,
    decreases lines.len(),
{
    if lines.len() == 0 {
        m
    } else {
        match spec_parse_subst_line(lines.last()) {
            None => spec_table_of(m, lines.drop_last()),
            Some((source, dest)) => spec_line_added(
                spec_table_of(m, lines.drop_last()),
                source,
                dest,
            ),
        }
    }
}

/// A line rewritten through a table: each grapheme cluster replaced by its
/// mapping when it has one, kept as it is otherwise, all concatenated.
pub open spec fn spec_substituted(gs: Seq<Seq<char>>, m: Map<Seq<char>, Seq<char>>) -> Seq<char>
    decreases gs.len(),
{
    if gs.len() == 0 {
        Seq::empty()
    } else {
        spec_substituted(gs.drop_last(), m) + (if m.contains_key(gs.last()) {
            m[gs.last()]
        } else {
            gs.last()
        })
    }
}

/// A substitution table: each known grapheme cluster maps to its
/// replacement string.
pub struct SubstitutionTable {
    entries: Vec<(String, String)>,
}

impl View for SubstitutionTable {
    type V = Map<Seq<char>, Seq<char>>;

    closed spec fn view(&self) -> Map<Seq<char>, Seq<char>> {
        spec_assoc_map(viewed_subst(self.entries@))
    }
}

impl SubstitutionTable {
    /// Internal consistency: every grapheme has exactly one entry.
    pub closed spec fn wf(self) -> bool {
        distinct_keys(viewed_subst(self.entries@))
    }

    pub fn new() -> (r: Self)
        ensures
            r.wf(),
            r@ == Map::<Seq<char>, Seq<char>>::empty(),
    {
        SubstitutionTable { entries: Vec::new() }
    }

    /// The entry index holding `key`, if one does.
    fn find(&self, key: &String) -> (r: Option<usize>)
        ensures
            match r {
                Some(i) => i < self.entries@.len() && self.entries@[i as int].0@ == key@,
                None => forall|j: int|
                    0 <= j < self.entries@.len() ==> (#[trigger] self.entries@[j]).0@ != key@,
            },
    {
        let mut i: usize = 0;
        while i < self.entries.len()
            invariant
                i <= self.entries@.len(),
                forall|j: int| 0 <= j < i ==> (#[trigger] self.entries@[j]).0@ != key@,
            decreases self.entries@.len() - i,
        {
            if self.entries[i].0 == *key {
                return Some(i);
            }
            i = i + 1;
        }
        None
    }

    /// Maps `key` to `value`, replacing any earlier mapping.
    pub fn set(&mut self, key: &str, value: &str)
        requires
            old(self).wf(),
        ensures
            final(self).wf(),
            final(self)@ == old(self)@.insert(key@, value@),
    {
        let k = key.to_owned();
        let ghost pre = viewed_subst(self.entries@);
        match self.find(&k) {
            Some(i) => {
                proof {
                    lemma_assoc_map_index(pre, i as int);
                }
                let kk = self.entries[i].0.clone();
                self.entries[i] = (kk, value.to_owned());
                proof {
                    assert(viewed_subst(self.entries@) =~= pre.update(
                        i as int,
                        (pre[i as int].0, value@),
                    ));
                    lemma_assoc_map_update(pre, i as int, value@);
                }
            },
            None => {
                self.entries.push((k, value.to_owned()));
                proof {
                    assert(viewed_subst(self.entries@) =~= pre.push((key@, value@)));
                    lemma_assoc_map_push(pre, (key@, value@));
                }
            },
        }
    }

    /// The replacement for `key`, when the table holds one.
    pub fn lookup(&self, key: &String) -> (r: Option<String>)
        requires
            self.wf(),
        ensures
            match r {
                Some(v) => self@.contains_key(key@) && v@ == self@[key@],
                None => !self@.contains_key(key@),
            },
    {
        let ghost pre = viewed_subst(self.entries@);
        match self.find(key) {
            Some(i) => {
                proof {
                    lemma_assoc_map_index(pre, i as int);
                }
                Some(self.entries[i].1.clone())
            },
            None => {
                proof {
                    lemma_assoc_map_dom(pre, key@);
                }
                None
            },
        }
    }
}

/// The first index at or after `from` where a colon stands.
fn find_colon(line: &str, from: usize) -> (r: Option<usize>)
    requires
        from <= line@.len(),
    ensures
        match r {
            Some(i) => from <= i < line@.len() && line@[i as int] == ':' && (forall|j: int|
                from <= j < i ==> line@[j] != ':'),
            None => forall|j: int| from <= j < line@.len() ==> line@[j] != ':',
        },
{
    let n = line.unicode_len();
    let mut i = from;
    while i < n
        invariant
            n == line@.len(),
            from <= i <= n,
            forall|j: int| from <= j < i ==> line@[j] != ':',
        decreases n - i,
    {
        if line.get_char(i) == ':' {
            return Some(i);
        }
        i = i + 1;
    }
    None
}

/// The first colon at or after position `k`, of which nothing earlier in
/// the suffix is one, splits the suffix there.
proof fn lemma_split_first_at(l: Seq<char>, k: int)
    requires
        0 <= k < l.len(),
        l[k] == ':',
        forall|j: int| 0 <= j < k ==> l[j] != ':',
    ensures
        spec_split_first(l, ':') == Some((l.take(k), l.skip(k + 1))),
    decreases k,
{
    if k == 0 {
        assert(l.take(0) =~= Seq::<char>::empty());
        assert(l.skip(1) =~= l.drop_first());
    } else {
        let d = l.drop_first();
        assert(d[k - 1] == l[k]);
        assert(forall|j: int| 0 <= j < k - 1 ==> d[j] == l[j + 1] && #[trigger] d[j] != ':');
        lemma_split_first_at(d, k - 1);
        assert(seq![l[0]] + d.take(k - 1) =~= l.take(k));
        assert(d.skip(k) =~= l.skip(k + 1));
    }
}

/// A colon-free stretch does not split.
proof fn lemma_split_first_none(l: Seq<char>)
    requires
        forall|j: int| 0 <= j < l.len() ==> l[j] != ':',
    ensures
        spec_split_first(l, ':') is None,
    decreases l.len(),
{
    if l.len() > 0 {
        let d = l.drop_first();
        assert(forall|j: int| 0 <= j < d.len() ==> d[j] == l[j + 1] && #[trigger] d[j] != ':');
        lemma_split_first_none(d);
    }
}

/// The `source` and `dest` parts of one substitution line, or the
/// configuration error when the line has no colon.
fn parse_subst_line(line: &str) -> (r: Result<(String, String), ConfigurationError>)
    ensures
        match r {
            Ok(parts) => spec_parse_subst_line(line@) == Some((parts.0@, parts.1@)),
            Err(e) => spec_parse_subst_line(line@) is None && e
                == ConfigurationError::MissingSeparator,
        },
{
    let n = line.unicode_len();
    match find_colon(line, 0) {
        None => {
            proof {
                lemma_split_first_none(line@);
            }
            Err(ConfigurationError::MissingSeparator)
        },
        Some(i) => {
            proof {
                lemma_split_first_at(line@, i as int);
            }
            let source = line.substring_char(0, i).to_owned();
            let dest_end = match find_colon(line, i + 1) {
                None => {
                    proof {
                        let rest = line@.skip(i + 1);
                        assert(forall|j: int| 0 <= j < rest.len() ==> #[trigger] rest[j] == line@[j
                            + i + 1]);
                        assert(forall|j: int| 0 <= j < rest.len() ==> #[trigger] rest[j] != ':');
                        lemma_split_first_none(rest);
                    }
                    n
                },
                Some(j) => {
                    proof {
                        let rest = line@.skip(i + 1);
                        assert(rest[j - i - 1] == line@[j as int]);
                        assert(forall|t: int| 0 <= t < j - i - 1 ==> #[trigger] rest[t] == line@[t
                            + i + 1]);
                        assert(forall|t: int| 0 <= t < j - i - 1 ==> #[trigger] rest[t] != ':');
                        lemma_split_first_at(rest, j - i - 1);
                        assert(rest.take(j - i - 1) =~= line@.subrange(i + 1, j as int));
                    }
                    j
                },
            };
            let dest = line.substring_char(i + 1, dest_end).to_owned();
            proof {
                assert(line@.take(i as int) =~= line@.subrange(0, i as int));
                assert(line@.skip(i + 1) =~= line@.subrange(i + 1, n as int));
            }
            Ok((source, dest))
        },
    }
}

/// The substitution table a configuration file denotes: each line is
/// `source:dest`, and every grapheme cluster of `source` is mapped to
/// `dest`, later lines overriding earlier ones. The table is returned
/// exactly when every line holds a colon; one malformed line is the
/// configuration error.
pub fn substitutions_from_lines(lines: &Vec<String>) -> (r: Result<
    SubstitutionTable,
    ConfigurationError,
>)
    ensures
        match r {
            Ok(t) => {
                &&& t.wf()
                &&& t@ == spec_table_of(
                    Map::<Seq<char>, Seq<char>>::empty(),
                    lines.deep_view(),
                )
                &&& forall|i: int|
                    0 <= i < lines@.len() ==> spec_parse_subst_line(
                        #[trigger] lines.deep_view()[i],
                    ) is Some
            },
            Err(e) => {
                &&& e == ConfigurationError::MissingSeparator
                &&& exists|i: int|
                    0 <= i < lines@.len() && spec_parse_subst_line(
                        #[trigger] lines.deep_view()[i],
                    ) is None
            },
        },
{
    let ghost dv = lines.deep_view();
    let mut table = SubstitutionTable::new();
    let mut i: usize = 0;
    proof {
        assert(dv.take(0) =~= Seq::<Seq<char>>::empty());
    }
    while i < lines.len()
        invariant
            dv == lines.deep_view(),
            i <= lines@.len(),
            table.wf(),
            table@ == spec_table_of(Map::<Seq<char>, Seq<char>>::empty(), dv.take(i as int)),
            forall|j: int| 0 <= j < i ==> spec_parse_subst_line(#[trigger] dv[j]) is Some,
        decreases lines@.len() - i,
    {
        match parse_subst_line(lines[i].as_str()) {
            Err(e) => {
                proof {
                    assert(spec_parse_subst_line(dv[i as int]) is None);
                }
                return Err(e);
            },
            Ok(parts) => {
                let (source, dest) = parts;
                let graphemes = split_graphemes(source.as_str());
                let ghost gs = graphemes_of(source@);
                let mut g: usize = 0;
                let ghost base = table@;
                while g < graphemes.len()
                    invariant
                        g <= graphemes@.len(),
                        graphemes.deep_view() == gs,
                        table.wf(),
                        table@ == spec_graphemes_added(base, gs.take(g as int), dest@),
                    decreases graphemes@.len() - g,
                {
                    table.set(graphemes[g].as_str(), dest.as_str());
                    g = g + 1;
                    proof {
                        assert(gs.take(g as int).drop_last() =~= gs.take(g - 1));
                        assert(gs.take(g as int).last() == gs[g - 1]);
                    }
                }
                i = i + 1;
                proof {
                    assert(gs.take(graphemes@.len() as int) =~= gs);
                    assert(dv.take(i as int).drop_last() =~= dv.take(i - 1));
                    assert(dv.take(i as int).last() == dv[i - 1]);
                    assert(table@ == spec_table_of(
                        Map::<Seq<char>, Seq<char>>::empty(),
                        dv.take(i as int),
                    ));
                }
            },
        }
    }
    proof {
        assert(dv.take(lines@.len() as int) =~= dv);
    }
    Ok(table)
}

/// A line rewritten through the table: each grapheme cluster replaced by
/// its mapping when the table holds one, kept otherwise.
pub fn substitute_line(line: &str, table: &SubstitutionTable) -> (r: String)
    requires
        table.wf(),
    ensures
        r@ == spec_substituted(graphemes_of(line@), table@),
{
    let graphemes = split_graphemes(line);
    let ghost gs = graphemes_of(line@);
    let mut out = String::new();
    let mut i: usize = 0;
    proof {
        assert(gs.take(0) =~= Seq::<Seq<char>>::empty());
    }
    while i < graphemes.len()
        invariant
            table.wf(),
            i <= graphemes@.len(),
            graphemes.deep_view() == gs,
            out@ == spec_substituted(gs.take(i as int), table@),
        decreases graphemes@.len() - i,
    {
        match table.lookup(&graphemes[i]) {
            Some(repl) => {
                out.append(repl.as_str());
            },
            None => {
                out.append(graphemes[i].as_str());
            },
        }
        i = i + 1;
        proof {
            assert(gs.take(i as int).drop_last() =~= gs.take(i - 1));
            assert(gs.take(i as int).last() == gs[i - 1]);
        }
    }
    proof {
        assert(gs.take(graphemes@.len() as int) =~= gs);
    }
    out
}

/// Every line of a batch rewritten through the table, in order.
pub fn substitute_batch(batch: &Vec<String>, table: &SubstitutionTable) -> (r: Vec<String>)
    requires
        table.wf(),
    ensures
        r.deep_view() == batch.deep_view().map_values(
            |l: Seq<char>| spec_substituted(graphemes_of(l), table@),
        ),
{
    let ghost target = batch.deep_view().map_values(
        |l: Seq<char>| spec_substituted(graphemes_of(l), table@),
    );
    let mut r: Vec<String> = Vec::new();
    let mut i: usize = 0;
    proof {
        assert(r.deep_view() =~= target.take(0));
    }
    while i < batch.len()
        invariant
            table.wf(),
            i <= batch@.len(),
            target == batch.deep_view().map_values(
                |l: Seq<char>| spec_substituted(graphemes_of(l), table@),
            ),
            r.deep_view() == target.take(i as int),
        decreases batch@.len() - i,
    {
        let x = substitute_line(batch[i].as_str(), table);
        let ghost prev = r;
        let ghost xx = x;
        r.push(x);
        i = i + 1;
        proof {
            crate::views::lemma_deep_view_push(prev, r, xx);
            assert(r.deep_view() =~= target.take(i as int));
        }
    }
    proof {
        assert(target.take(batch@.len() as int) =~= target);
    }
    r
}

} // verus!
