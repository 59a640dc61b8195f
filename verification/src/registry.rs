//! The label registry: a mapping from 64-bit identifiers to the labels
//! they were hashed from, loaded wholesale from a newline-delimited label
//! list. Each load replaces the previous contents entirely; lookups only
//! ever reflect the latest load.

use vstd::prelude::*;

verus! {

use std::collections::HashMap;
use crate::hash::{hash40, hash40_spec};

broadcast use vstd::std_specs::hash::group_hash_axioms;

/// The characters stripped by trimming: ASCII whitespace.
pub open spec fn is_space(c: char) -> bool {
    c == ' ' || c == '\t' || c == '\n' || c == '\r' || c == '\x0b' || c == '\x0c'
}

/// The text with leading whitespace removed.
pub open spec fn spec_trim_start(s: Seq<char>) -> Seq<char>
    decreases s.len(),
{
    if s.len() == 0 {
        s
    } else if is_space(s[0]) {
        spec_trim_start(s.drop_first())
    } else {
        s
    }
}

/// The text with trailing whitespace removed.
pub open spec fn spec_trim_end(s: Seq<char>) -> Seq<char>
    decreases s.len(),
{
    if s.len() == 0 {
        s
    } else if is_space(s.last()) {
        spec_trim_end(s.drop_last())
    } else {
        s
    }
}

/// The text with leading and trailing whitespace removed.
pub open spec fn spec_trim(s: Seq<char>) -> Seq<char> {
    spec_trim_end(spec_trim_start(s))
}

proof fn lemma_trim_start_at(s: Seq<char>, i: int)
    requires
        0 <= i <= s.len(),
        forall|k: int| 0 <= k < i ==> is_space(s[k]),
        i < s.len() ==> !is_space(s[i]),
    ensures
        spec_trim_start(s) == s.subrange(i, s.len() as int),
    decreases i,
{
    if i == 0 {
        assert(s.subrange(0, s.len() as int) =~= s);
    } else {
        lemma_trim_start_at(s.drop_first(), i - 1);
        assert(s.drop_first().subrange(i - 1, s.drop_first().len() as int) =~= s.subrange(
            i,
            s.len() as int,
        ));
    }
}

proof fn lemma_trim_end_at(s: Seq<char>, j: int)
    requires
        0 <= j <= s.len(),
        forall|k: int| j <= k < s.len() ==> is_space(s[k]),
        j > 0 ==> !is_space(s[j - 1]),
    ensures
        spec_trim_end(s) == s.subrange(0, j),
    decreases s.len() - j,
{
    if j == s.len() {
        assert(s.subrange(0, j) =~= s);
    } else {
        lemma_trim_end_at(s.drop_last(), j);
        assert(s.drop_last().subrange(0, j) =~= s.subrange(0, j));
    }
}

fn is_space_char(c: char) -> (r: bool)
    ensures
        r == is_space(c),
{
    c == ' ' || c == '\t' || c == '\n' || c == '\r' || c == '\x0b' || c == '\x0c'
}

/// Strip leading and trailing ASCII whitespace from a label line.
pub fn trim(s: &str) -> (r: &str)
    ensures
        r@ == spec_trim(s@),
{
    let n = s.unicode_len();
    let mut start: usize = 0;
    while start < n && is_space_char(s.get_char(start))
        invariant
            0 <= start <= n,
            n == s@.len(),
            forall|k: int| 0 <= k < start ==> is_space(s@[k]),
        decreases n - start,
    {
        start = start + 1;
    }
    let mut end: usize = n;
    while end > start && is_space_char(s.get_char(end - 1))
        invariant
            start <= end <= n,
            n == s@.len(),
            forall|k: int| end <= k < n ==> is_space(s@[k]),
        decreases end,
    {
        end = end - 1;
    }
    let r = s.substring_char(start, end);
    proof {
        lemma_trim_start_at(s@, start as int);
        let t = s@.subrange(start as int, n as int);
        lemma_trim_end_at(t, end as int - start as int);
        assert(t.subrange(0, end as int - start as int) =~= s@.subrange(start as int, end as int));
    }
    r
}

/// The end of the line that starts at `i`: the position of the next
/// newline, or the end of the text.
pub open spec fn line_end(s: Seq<char>, i: int) -> int
    decreases s.len() - i,
{
    if i < 0 || i >= s.len() {
        s.len() as int
    } else if s[i] == '\n' {
        i
    } else {
        line_end(s, i + 1)
    }
}

proof fn lemma_line_end(s: Seq<char>, i: int)
    requires
        0 <= i <= s.len(),
    ensures
        i <= line_end(s, i) <= s.len(),
        forall|k: int| i <= k < line_end(s, i) ==> s[k] != '\n',
        line_end(s, i) < s.len() ==> s[line_end(s, i)] == '\n',
    decreases s.len() - i,
{
    if i < s.len() && s[i] != '\n' {
        lemma_line_end(s, i + 1);
    }
}

proof fn lemma_line_end_unique(s: Seq<char>, i: int, j: int)
    requires
        0 <= i <= j <= s.len(),
        forall|k: int| i <= k < j ==> s[k] != '\n',
        j < s.len() ==> s[j] == '\n',
    ensures
        line_end(s, i) == j,
    decreases j - i,
{
    if i < j {
        lemma_line_end_unique(s, i + 1, j);
    }
}

/// The registry contents after loading the text from position `i` on into
/// the map `m`: each line (delimited by `'\n'`) is trimmed and hashed,
/// and the untrimmed line is recorded under that identifier. A later line
/// with the same identifier wins.
pub open spec fn spec_load_at(s: Seq<char>, i: int, m: Map<u64, Seq<char>>) -> Map<u64, Seq<char>>
    decreases s.len() - i,
        via spec_load_at_decreases
{
    let e = line_end(s, i);
    let line = s.subrange(i, e);
    let m2 = m.insert(hash40_spec(spec_trim(line)), line);
    if e >= s.len() {
        m2
    } else {
        spec_load_at(s, e + 1, m2)
    }
}

#[via_fn]
proof fn spec_load_at_decreases(s: Seq<char>, i: int, m: Map<u64, Seq<char>>) {
    if 0 <= i <= s.len() {
        lemma_line_end(s, i);
    }
}

/// The registry contents a load from `source` produces. Every source
/// yields at least one line (an empty source is one empty line), and the
/// result is a function of the source alone.
pub open spec fn spec_load(source: Seq<char>) -> Map<u64, Seq<char>> {
    spec_load_at(source, 0, Map::empty())
}

/// The view of the backing table: the same keys, with each label seen as
/// its character sequence.
spec fn map_labels(m: Map<u64, String>) -> Map<u64, Seq<char>> {
    Map::new(|id: u64| m.contains_key(id), |id: u64| m[id]@)
}

/// An owned identifier-to-label mapping. It starts empty; a load replaces
/// its whole contents from a newline-delimited label list, and lookups
/// resolve identifiers to the labels of the latest load only.
pub struct LabelRegistry {
    labels: HashMap<u64, String>,
}

impl View for LabelRegistry {
    type V = Map<u64, Seq<char>>;

    closed spec fn view(&self) -> Map<u64, Seq<char>> {
        map_labels(self.labels@)
    }
}

impl LabelRegistry {
    /// An empty registry: no identifier resolves.
    pub fn new() -> (r: LabelRegistry)
        ensures
            r@ == Map::<u64, Seq<char>>::empty(),
    {
        let r = LabelRegistry { labels: HashMap::new() };
        proof {
            assert(r@ =~= Map::<u64, Seq<char>>::empty());
        }
        r
    }

    /// Load a newline-delimited label list, replacing the previous
    /// contents entirely: afterwards the registry holds exactly the
    /// mapping determined by `source`, whatever it held before. Each
    /// line is trimmed and hashed independently; hashing never fails, so
    /// every line is recorded (the untrimmed line, under the hash of its
    /// trimmed text).
    pub fn load(&mut self, source: &str)
        ensures
            final(self)@ == spec_load(source@),
    {
        let n = source.unicode_len();
        let mut labels: HashMap<u64, String> = HashMap::new();
        proof {
            assert(map_labels(labels@) =~= Map::<u64, Seq<char>>::empty());
        }
        let mut i: usize = 0;
        loop
            invariant
                0 <= i <= n,
                n == source@.len(),
                spec_load_at(source@, i as int, map_labels(labels@)) == spec_load(source@),
            ensures
                map_labels(labels@) == spec_load(source@),
            decreases n - i,
        {
            let mut j = i;
            while j < n && source.get_char(j) != '\n'
                invariant
                    i <= j <= n,
                    n == source@.len(),
                    forall|k: int| i <= k < j ==> source@[k] != '\n',
                decreases n - j,
            {
                j = j + 1;
            }
            proof {
                lemma_line_end_unique(source@, i as int, j as int);
            }
            let ghost m_before = map_labels(labels@);
            let line = source.substring_char(i, j);
            let trimmed = trim(line);
            let id = hash40(trimmed);
            let owned = line.to_owned();
            labels.insert(id, owned);
            proof {
                assert(map_labels(labels@) =~= m_before.insert(id, line@));
            }
            if j == n {
                break;
            }
            i = j + 1;
        }
        self.labels = labels;
    }

    /// Resolve an identifier to its label, if the latest load recorded
    /// one; absence is not an error, and callers fall back to a
    /// hexadecimal rendering.
    pub fn lookup(&self, id: u64) -> (r: Option<&String>)
        ensures
            match r {
                Some(label) => self@.contains_key(id) && label@ == self@[id],
                None => !self@.contains_key(id),
            },
    {
        self.labels.get(&id)
    }
}

}
