//! The set of identifiers already shown, kept as an ordered record.

use vstd::prelude::*;

verus! {

/// Identifiers of items shown in earlier runs, in the order they were first
/// shown. Lookup is by exact, case-sensitive match.
pub struct SeenRecord {
    pub ids: Vec<String>,
}

pub open spec fn views_of(v: Seq<String>) -> Seq<Seq<char>> {
    v.map_values(|s: String| s@)
}

impl View for SeenRecord {
    type V = Seq<Seq<char>>;

    open spec fn view(&self) -> Seq<Seq<char>> {
        views_of(self.ids@)
    }
}

/// The line breaks of `s` up to position `i`: the lines completed so far, and
/// where the current line starts.
pub open spec fn scan_lines(s: Seq<char>, i: nat) -> (Seq<Seq<char>>, int)
    decreases i,
{
    if i == 0 {
        (Seq::empty(), 0)
    } else {
        let (done, start) = scan_lines(s, (i - 1) as nat);
        if s[i - 1] == '\n' {
            (done.push(s.subrange(start, i - 1)), i as int)
        } else {
            (done, start)
        }
    }
}

/// The lines of a text split at `'\n'`; a final empty line is not counted.
pub open spec fn lines_of(s: Seq<char>) -> Seq<Seq<char>> {
    let (done, start) = scan_lines(s, s.len());
    if start < s.len() {
        done.push(s.subrange(start, s.len() as int))
    } else {
        done
    }
}

/// The identifiers joined by `'\n'`, with no line break at the end.
pub open spec fn joined(ids: Seq<Seq<char>>) -> Seq<char>
    decreases ids.len(),
{
    if ids.len() == 0 {
        Seq::empty()
    } else if ids.len() == 1 {
        ids[0]
    } else {
        joined(ids.drop_last()) + "\n"@ + ids.last()
    }
}

proof fn lemma_scan_start(s: Seq<char>, i: nat)
    requires
        i <= s.len(),
    ensures
        0 <= scan_lines(s, i).1 <= i,
    decreases i,
{
    if i > 0 {
        lemma_scan_start(s, (i - 1) as nat);
    }
}

/// Scanning a prefix does not look past it.
proof fn lemma_scan_prefix(a: Seq<char>, b: Seq<char>, i: nat)
    requires
        i <= a.len(),
    ensures
        scan_lines(a + b, i) == scan_lines(a, i),
    decreases i,
{
    if i > 0 {
        lemma_scan_prefix(a, b, (i - 1) as nat);
        lemma_scan_start(a, (i - 1) as nat);
        let start = scan_lines(a, (i - 1) as nat).1;
        assert((a + b)[i - 1] == a[i - 1]);
        assert((a + b).subrange(start, i - 1) =~= a.subrange(start, i - 1));
    }
}

/// Scanning over characters that are not line breaks changes nothing.
proof fn lemma_scan_no_break(s: Seq<char>, j: nat, i: nat)
    requires
        j <= i <= s.len(),
        forall|k: int| j <= k < i ==> s[k] != '\n',
    ensures
        scan_lines(s, i) == scan_lines(s, j),
    decreases i,
{
    if i > j {
        lemma_scan_no_break(s, j, (i - 1) as nat);
    }
}

proof fn lemma_joined_ends_with_last(ids: Seq<Seq<char>>)
    requires
        ids.len() > 0,
    ensures
        joined(ids).len() >= ids.last().len(),
        joined(ids).subrange(joined(ids).len() - ids.last().len(), joined(ids).len() as int)
            == ids.last(),
{
    reveal_strlit("\n");
    let s = joined(ids);
    if ids.len() == 1 {
        assert(s.subrange(0, s.len() as int) =~= s);
    } else {
        let a = joined(ids.drop_last()) + "\n"@;
        assert(s.subrange(s.len() - ids.last().len(), s.len() as int) =~= ids.last()) by {
            assert(s == a + ids.last());
        }
    }
}

pub open spec fn no_line_breaks(ids: Seq<Seq<char>>) -> bool {
    forall|k: int, j: int| 0 <= k < ids.len() && 0 <= j < ids[k].len() ==> ids[k][j] != '\n'
}

proof fn lemma_scan_joined(ids: Seq<Seq<char>>)
    requires
        ids.len() > 0,
        no_line_breaks(ids),
    ensures
        scan_lines(joined(ids), joined(ids).len()) == (
            ids.drop_last(),
            joined(ids).len() - ids.last().len(),
        ),
    decreases ids.len(),
{
    reveal_strlit("\n");
    let s = joined(ids);
    let last = ids.last();
    if ids.len() == 1 {
        assert forall|k: int| 0 <= k < s.len() implies s[k] != '\n' by {
            assert(ids[0][k] != '\n');
        }
        lemma_scan_no_break(s, 0, s.len());
        assert(ids.drop_last() =~= Seq::<Seq<char>>::empty());
    } else {
        let d = ids.drop_last();
        let a = joined(d);
        let m = a.len();
        assert forall|k: int, j: int| 0 <= k < d.len() && 0 <= j < d[k].len() implies d[k][j] != '\n' by {
            assert(d[k] == ids[k]);
        }
        lemma_scan_joined(d);
        lemma_joined_ends_with_last(d);
        let b = "\n"@ + last;
        assert(s =~= a + b);
        lemma_scan_prefix(a, b, m);
        assert(s[m as int] == '\n');
        assert(s.subrange(m - d.last().len(), m as int) =~= a.subrange(m - d.last().len(), m as int));
        assert(d.drop_last().push(d.last()) =~= d);
        assert(scan_lines(s, m + 1) == (d, (m + 1) as int));
        assert forall|k: int| m + 1 <= k < s.len() implies s[k] != '\n' by {
            assert(s[k] == last[k - m - 1]);
            assert(last == ids[ids.len() - 1]);
        }
        lemma_scan_no_break(s, m + 1, s.len());
    }
}

/// A record written out as text reads back as the same record, provided no
/// identifier holds a line break and the last one is not empty.
pub proof fn law_text_round_trip(ids: Seq<Seq<char>>)
    requires
        no_line_breaks(ids),
        ids.len() == 0 || ids.last().len() > 0,
    ensures
        lines_of(joined(ids)) == ids,
{
    if ids.len() == 0 {
        assert(lines_of(joined(ids)) =~= ids);
    } else {
        lemma_scan_joined(ids);
        lemma_joined_ends_with_last(ids);
        assert(ids.drop_last().push(ids.last()) =~= ids);
    }
}

impl SeenRecord {
    pub fn new() -> (r: SeenRecord)
        ensures
            r@ == Seq::<Seq<char>>::empty(),
    {
        let r = SeenRecord { ids: Vec::new() };
        assert(r@ =~= Seq::<Seq<char>>::empty());
        r
    }

    /// Whether `id` was recorded.
    pub fn contains(&self, id: &String) -> (r: bool)
        ensures
            r == self@.contains(id@),
    {
        let mut i: usize = 0;
        while i < self.ids.len()
            invariant
                i <= self.ids@.len(),
                forall|k: int| 0 <= k < i ==> self@[k] != id@,
            decreases self.ids@.len() - i,
        {
            if self.ids[i] == *id {
                assert(self@[i as int] == id@);
                return true;
            }
            i = i + 1;
        }
        false
    }

    /// Records `id` after the identifiers already there.
    pub fn append(&mut self, id: String)
        ensures
            final(self)@ == old(self)@.push(id@),
    {
        self.ids.push(id);
        assert(self@ =~= old(self)@.push(id@));
    }

    /// Reads a record from its stored text, one identifier per line.
    pub fn from_text(content: &str) -> (r: SeenRecord)
        ensures
            r@ == lines_of(content@),
    {
        let n = content.unicode_len();
        let mut ids: Vec<String> = Vec::new();
        let mut start: usize = 0;
        let mut i: usize = 0;
        while i < n
            invariant
                n == content@.len(),
                i <= n,
                (views_of(ids@), start as int) == scan_lines(content@, i as nat),
                start <= i,
            decreases n - i,
        {
            if content.get_char(i) == '\n' {
                let line = content.substring_char(start, i).to_owned();
                ids.push(line);
                start = i + 1;
            }
            i = i + 1;
            assert(views_of(ids@) =~= scan_lines(content@, i as nat).0);
        }
        if start < n {
            ids.push(content.substring_char(start, n).to_owned());
        }
        let r = SeenRecord { ids };
        assert(r@ =~= lines_of(content@));
        r
    }

    /// The stored text of the record: identifiers joined by line breaks.
    pub fn to_text(&self) -> (r: String)
        ensures
            r@ == joined(self@),
    {
        let mut s = String::new();
        let mut i: usize = 0;
        while i < self.ids.len()
            invariant
                i <= self.ids@.len(),
                s@ == joined(self@.take(i as int)),
            decreases self.ids@.len() - i,
        {
            let ghost pre = self@.take(i as int);
            assert(self@.take(i + 1).drop_last() =~= pre);
            if i > 0 {
                s.append("\n");
            } else {
                assert(s@ =~= Seq::<char>::empty());
            }
            s.append(self.ids[i].as_str());
            i = i + 1;
            assert(s@ =~= joined(self@.take(i as int)));
        }
        assert(self@.take(i as int) =~= self@);
        s
    }
}

} // verus!
