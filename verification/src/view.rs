use vstd::prelude::*;

use crate::scanner::FileEntry;
use vstd::string::StrSliceExecFns;

verus! {

/// What a directory view is ordered by.
#[derive(Clone, Copy, Debug, PartialEq, Eq, Structural)]
pub enum SortBy {
    Name,
    Size,
    Modified,
}

impl Default for SortBy {
    /// Views order by name unless asked otherwise.
    fn default() -> (r: Self)
        ensures
            r == SortBy::Name,
    {
        SortBy::Name
    }
}

impl SortBy {
    /// The word the option is written as.
    pub fn as_str(&self) -> (r: &'static str)
        ensures
            *self == SortBy::Name ==> r@ == "name"@,
            *self == SortBy::Size ==> r@ == "size"@,
            *self == SortBy::Modified ==> r@ == "modified"@,
    {
        match self {
            SortBy::Name => "name",
            SortBy::Size => "size",
            SortBy::Modified => "modified",
        }
    }
}

/// Lexicographic order on character sequences, by code point.
pub open spec fn spec_lex_le(a: Seq<char>, b: Seq<char>) -> bool
    decreases a.len(),
{
    if a.len() == 0 {
        true
    } else if b.len() == 0 {
        false
    } else if a[0] != b[0] {
        (a[0] as u32) < (b[0] as u32)
    } else {
        spec_lex_le(a.drop_first(), b.drop_first())
    }
}

/// Equal prefixes do not decide the lexicographic order: it is settled
/// past them.
proof fn lemma_lex_skip(a: Seq<char>, b: Seq<char>, i: int)
    requires
        0 <= i <= a.len(),
        i <= b.len(),
        forall|k: int| 0 <= k < i ==> a[k] == b[k],
    ensures
        spec_lex_le(a, b) == spec_lex_le(a.skip(i), b.skip(i)),
    decreases i,
{
    if i > 0 {
        assert(a.len() > 0 && b.len() > 0);
        assert(a[0] == b[0]);
        lemma_lex_skip(a.drop_first(), b.drop_first(), i - 1);
        assert(a.drop_first().skip(i - 1) =~= a.skip(i));
        assert(b.drop_first().skip(i - 1) =~= b.skip(i));
    } else {
        assert(a.skip(0) =~= a);
        assert(b.skip(0) =~= b);
    }
}

/// Whether `a` comes no later than `b` in lexicographic order.
pub fn str_le(a: &str, b: &str) -> (r: bool)
    ensures
        r == spec_lex_le(a@, b@),
{
    let an: usize = a.unicode_len();
    let bn: usize = b.unicode_len();
    let mut i: usize = 0;
    while i < an && i < bn
        invariant
            an == a@.len(),
            bn == b@.len(),
            0 <= i <= an,
            0 <= i <= bn,
            forall|k: int| 0 <= k < i ==> a@[k] == b@[k],
        decreases an - i,
    {
        let ca = a.get_char(i);
        let cb = b.get_char(i);
        if ca != cb {
            proof {
                lemma_lex_skip(a@, b@, i as int);
                assert(a@.skip(i as int)[0] == a@[i as int]);
                assert(b@.skip(i as int)[0] == b@[i as int]);
            }
            return (ca as u32) < (cb as u32);
        }
        i = i + 1;
    }
    proof {
        lemma_lex_skip(a@, b@, i as int);
        if i == an {
            assert(a@.skip(i as int).len() == 0);
        } else {
            assert(b@.skip(i as int).len() == 0);
            assert(a@.skip(i as int).len() > 0);
        }
    }
    an <= bn
}

/// The part of `s` after its last occurrence of `c`: the whole of `s`
/// when `c` does not occur, empty when `s` ends with `c`.
pub open spec fn spec_after_last(s: Seq<char>, c: char) -> Seq<char>
    decreases s.len(),
{
    if s.len() == 0 {
        s
    } else if s.last() == c {
        Seq::empty()
    } else {
        spec_after_last(s.drop_last(), c).push(s.last())
    }
}

/// Past the last occurrence of `c`, the tail of `s` is a plain suffix.
proof fn lemma_after_last(s: Seq<char>, c: char, i: int)
    requires
        0 <= i <= s.len(),
        forall|k: int| i <= k < s.len() ==> s[k] != c,
        i == 0 || s[i - 1] == c,
    ensures
        spec_after_last(s, c) == s.subrange(i, s.len() as int),
    decreases s.len(),
{
    if s.len() == 0 {
        assert(s.subrange(0, 0) =~= s);
    } else if s.last() == c {
        assert(i == s.len());
        assert(s.subrange(i, s.len() as int) =~= Seq::<char>::empty());
    } else {
        lemma_after_last(s.drop_last(), c, i);
        assert(s.drop_last().subrange(i, s.len() - 1) =~= s.subrange(i, s.len() - 1));
        assert(s.subrange(i, s.len() - 1).push(s.last()) =~= s.subrange(i, s.len() as int));
    }
}

/// The file name of a path: what stands after the last separator.
pub fn file_name_of(path: &str) -> (r: &str)
    ensures
        r@ == spec_after_last(path@, '/'),
{
    let n: usize = path.unicode_len();
    let mut i: usize = n;
    let mut done = false;
    while !done
        invariant
            n == path@.len(),
            0 <= i <= n,
            forall|k: int| i <= k < n ==> path@[k] != '/',
            done ==> i == 0 || path@[i - 1] == '/',
        decreases i + (if done {
            0int
        } else {
            1int
        }),
    {
        if i == 0 {
            done = true;
        } else {
            let prev = path.get_char(i - 1);
            if prev == '/' {
                done = true;
            } else {
                i = i - 1;
            }
        }
    }
    proof {
        lemma_after_last(path@, '/', i as int);
    }
    path.substring_char(i, n)
}

/// `c` occurs somewhere in `s`.
pub open spec fn spec_has_char(s: Seq<char>, c: char) -> bool {
    exists|k: int| 0 <= k < s.len() && s[k] == c
}

/// The extension of a file name: what stands after the last dot, empty
/// when there is none.
pub open spec fn spec_extension(name: Seq<char>) -> Seq<char> {
    if spec_has_char(name, '.') {
        spec_after_last(name, '.')
    } else {
        Seq::empty()
    }
}

/// The extension of a file name.
pub fn extension_of(name: &str) -> (r: &str)
    ensures
        r@ == spec_extension(name@),
{
    let n: usize = name.unicode_len();
    let mut i: usize = n;
    let mut done = false;
    while !done
        invariant
            n == name@.len(),
            0 <= i <= n,
            forall|k: int| i <= k < n ==> name@[k] != '.',
            done ==> i == 0 || name@[i - 1] == '.',
        decreases i + (if done {
            0int
        } else {
            1int
        }),
    {
        if i == 0 {
            done = true;
        } else {
            let prev = name.get_char(i - 1);
            if prev == '.' {
                done = true;
            } else {
                i = i - 1;
            }
        }
    }
    if i == 0 {
        proof {
            assert(!spec_has_char(name@, '.'));
            reveal_strlit("");
            assert(""@ =~= Seq::<char>::empty());
        }
        ""
    } else {
        proof {
            assert(name@[i - 1] == '.');
            lemma_after_last(name@, '.', i as int);
            assert(spec_has_char(name@, '.'));
        }
        name.substring_char(i, n)
    }
}

/// The instant an entry counts as modified at: the epoch when none was
/// reported.
pub open spec fn spec_modified_or_epoch(m: Option<u64>) -> u64 {
    match m {
        Some(t) => t,
        None => 0,
    }
}

/// Whether `a` comes no later than `b` under the chosen order: by file
/// name, by size, or by modification instant.
pub open spec fn spec_entry_le(sort: SortBy, a: &FileEntry, b: &FileEntry) -> bool {
    match sort {
        SortBy::Name => spec_lex_le(spec_after_last(a.path@, '/'), spec_after_last(b.path@, '/')),
        SortBy::Size => a.size <= b.size,
        SortBy::Modified => spec_modified_or_epoch(a.modified) <= spec_modified_or_epoch(
            b.modified,
        ),
    }
}

/// The comparator a directory view is sorted with.
pub fn entry_le(sort: SortBy, a: &FileEntry, b: &FileEntry) -> (r: bool)
    ensures
        r == spec_entry_le(sort, a, b),
{
    match sort {
        SortBy::Name => str_le(file_name_of(a.path.as_str()), file_name_of(b.path.as_str())),
        SortBy::Size => a.size <= b.size,
        SortBy::Modified => {
            let am: u64 = match &a.modified {
                Some(t) => *t,
                None => 0,
            };
            let bm: u64 = match &b.modified {
                Some(t) => *t,
                None => 0,
            };
            am <= bm
        },
    }
}

/// Any two name sequences are ordered one way or the other.
proof fn lemma_lex_total(a: Seq<char>, b: Seq<char>)
    ensures
        spec_lex_le(a, b) || spec_lex_le(b, a),
    decreases a.len(),
{
    if a.len() > 0 && b.len() > 0 {
        if a[0] == b[0] {
            lemma_lex_total(a.drop_first(), b.drop_first());
        } else {
            vstd::utf8::char_u32_cast(a[0], a[0] as u32);
            vstd::utf8::char_u32_cast(b[0], b[0] as u32);
            assert((a[0] as u32) != (b[0] as u32));
        }
    }
}

/// Any two entries are ordered one way or the other, whatever the
/// chosen order.
pub proof fn lemma_entry_le_total(sort: SortBy, a: &FileEntry, b: &FileEntry)
    ensures
        spec_entry_le(sort, a, b) || spec_entry_le(sort, b, a),
{
    match sort {
        SortBy::Name => {
            lemma_lex_total(spec_after_last(a.path@, '/'), spec_after_last(b.path@, '/'));
        },
        SortBy::Size => {},
        SortBy::Modified => {},
    }
}

/// The pair at `i` is in order.
pub open spec fn spec_le_at(s: Seq<FileEntry>, sort: SortBy, i: int) -> bool {
    spec_entry_le(sort, &s[i], &s[i + 1])
}

/// Every entry comes no later than its neighbour, under the chosen
/// order.
pub open spec fn spec_sorted_run(s: Seq<FileEntry>, sort: SortBy) -> bool {
    forall|i: int| 0 <= i < s.len() - 1 ==> #[trigger] spec_le_at(s, sort, i)
}

/// Taking the entry at `i` out and putting it back at `p` moves ink
/// around but keeps exactly the same entries.
proof fn lemma_remove_insert_multiset(s: Seq<FileEntry>, i: int, p: int)
    requires
        0 <= i < s.len(),
        0 <= p <= i,
    ensures
        s.remove(i).insert(p, s[i]).to_multiset() == s.to_multiset(),
{
    broadcast use vstd::seq_lib::group_to_multiset_ensures;

    let x = s[i];
    let r = s.remove(i);
    let a = r.subrange(0, p);
    let b = r.subrange(p, r.len() as int);
    assert(r.insert(p, x) =~= a.push(x) + b);
    assert(a + b =~= r);
    vstd::seq_lib::lemma_multiset_commutative(a.push(x), b);
    vstd::seq_lib::lemma_multiset_commutative(a, b);
    assert(r.insert(p, x).to_multiset() =~= r.to_multiset().insert(x));
    assert(s.contains(x));
    assert(s.to_multiset().count(x) > 0);
    assert(r.to_multiset() == s.to_multiset().remove(x));
    assert(r.insert(p, x).to_multiset() =~= s.to_multiset());
}

/// Orders a listing in place: afterwards each entry comes no later
/// than the next under the chosen order, and the entries are exactly
/// the old ones.
pub fn sort_entries(entries: &mut Vec<FileEntry>, sort: SortBy)
    ensures
        spec_sorted_run(final(entries)@, sort),
        final(entries)@.to_multiset() == old(entries)@.to_multiset(),
{
    let n: usize = entries.len();
    if n <= 1 {
        return ;
    }
    let mut i: usize = 1;
    while i < n
        invariant
            n == entries@.len(),
            1 <= i <= n,
            spec_sorted_run(entries@.subrange(0, i as int), sort),
            entries@.to_multiset() == old(entries)@.to_multiset(),
        decreases n - i,
    {
        let mut p: usize = 0;
        let mut searching = true;
        while searching && p < i
            invariant
                n == entries@.len(),
                1 <= i < n,
                0 <= p <= i,
                forall|k: int|
                    0 <= k < p ==> spec_entry_le(sort, &entries@[k], &entries@[i as int]),
                !searching && p < i ==> !spec_entry_le(
                    sort,
                    &entries@[p as int],
                    &entries@[i as int],
                ),
            decreases i - p + (if searching {
                1int
            } else {
                0int
            }),
        {
            if entry_le(sort, &entries[p], &entries[i]) {
                p = p + 1;
            } else {
                searching = false;
            }
        }
        let ghost before = entries@;
        let x = entries.remove(i);
        entries.insert(p, x);
        proof {
            lemma_remove_insert_multiset(before, i as int, p as int);
            assert(entries@ =~= before.remove(i as int).insert(p as int, before[i as int]));
            before.remove(i as int).insert_ensures(p as int, before[i as int]);
            if p < i {
                lemma_entry_le_total(sort, &before[p as int], &before[i as int]);
            }
            let t = entries@;
            assert forall|k: int| 0 <= k < (i + 1) - 1 implies #[trigger] spec_le_at(
                t.subrange(0, i + 1),
                sort,
                k,
            ) by {
                let sub = t.subrange(0, i + 1);
                assert(sub[k] == t[k] && sub[k + 1] == t[k + 1]);
                let r = before.remove(i as int);
                assert(forall|m: int| 0 <= m < i ==> r[m] == before[m]);
                if k + 1 < p {
                    assert(t[k] == before[k] && t[k + 1] == before[k + 1]);
                    assert(spec_le_at(before.subrange(0, i as int), sort, k));
                    assert(before.subrange(0, i as int)[k] == before[k]);
                } else if k + 1 == p {
                    assert(t[k] == before[k] && t[k + 1] == before[i as int]);
                } else if k == p {
                    assert(t[k] == before[i as int] && t[k + 1] == before[k]);
                } else {
                    assert(t[k] == before[k - 1] && t[k + 1] == before[k]);
                    assert(spec_le_at(before.subrange(0, i as int), sort, k - 1));
                    assert(before.subrange(0, i as int)[k - 1] == before[k - 1]);
                }
            }
        }
        i = i + 1;
    }
    proof {
        assert(entries@.subrange(0, n as int) =~= entries@);
    }
}

/// `n` spaces.
pub open spec fn spec_spaces(n: int) -> Seq<char> {
    Seq::new(n as nat, |i: int| ' ')
}

/// A file name cut to a column: a long name keeps its head and its
/// extension around a three-dot ellipsis; a short one is padded with
/// spaces to the column width.
pub open spec fn spec_truncated_name(f: Seq<char>, mw: int) -> Seq<char> {
    if f.len() > mw {
        let ext = spec_extension(f);
        let keep = if mw >= ext.len() + 3 {
            mw - (ext.len() + 3)
        } else {
            0
        };
        f.subrange(0, keep) + "..."@ + ext
    } else {
        f + spec_spaces(mw - f.len())
    }
}

/// Cuts or pads a file name to a column of `max_width` characters.
pub fn truncate_name(filename: &str, max_width: usize) -> (r: String)
    ensures
        r@ == spec_truncated_name(filename@, max_width as int),
{
    let n: usize = filename.unicode_len();
    if n > max_width {
        let ext = extension_of(filename);
        let el: usize = ext.unicode_len();
        let keep: usize = if max_width >= 3 && max_width - 3 >= el {
            max_width - 3 - el
        } else {
            0
        };
        let mut s = filename.substring_char(0, keep).to_owned();
        s.append("...");
        s.append(ext);
        s
    } else {
        let mut s = filename.to_owned();
        let mut k: usize = 0;
        while k < max_width - n
            invariant
                n == filename@.len(),
                n <= max_width,
                0 <= k <= max_width - n,
                s@ == filename@ + spec_spaces(k as int),
            decreases max_width - n - k,
        {
            s.push(' ');
            proof {
                assert(s@ =~= filename@ + spec_spaces(k + 1));
            }
            k = k + 1;
        }
        proof {
            assert(s@ =~= filename@ + spec_spaces(max_width - n));
        }
        s
    }
}

/// Width of one grid column: the icon and its space, the name column,
/// and the padding between columns.
pub open spec fn spec_column_width(name_width: int) -> int {
    2 + name_width + 2
}

/// How many columns of that width a terminal row holds: at least one.
pub open spec fn spec_layout_columns(term_width: int, name_width: int) -> int {
    let cols = term_width / spec_column_width(name_width);
    if cols >= 1 {
        cols
    } else {
        1
    }
}

/// How many entries stand on one terminal row.
pub fn layout_columns(term_width: usize, name_width: usize) -> (r: usize)
    requires
        term_width <= 100000,
        name_width <= 10000,
    ensures
        r == spec_layout_columns(term_width as int, name_width as int),
{
    let cols: usize = term_width / (2 + name_width + 2);
    if cols >= 1 {
        cols
    } else {
        1
    }
}

/// The widest file name among the entries, in characters.
pub open spec fn spec_widest_name(s: Seq<FileEntry>) -> int
    decreases s.len(),
{
    if s.len() == 0 {
        0
    } else {
        let last = spec_after_last(s.last().path@, '/').len() as int;
        let rest = spec_widest_name(s.drop_last());
        if rest >= last {
            rest
        } else {
            last
        }
    }
}

/// The name-column width of a listing: the widest name, 20 for an
/// empty listing, and never over 30.
pub open spec fn spec_name_column(s: Seq<FileEntry>) -> int {
    let w = if s.len() == 0 {
        20
    } else {
        spec_widest_name(s)
    };
    if w <= 30 {
        w
    } else {
        30
    }
}

/// The name-column width for a listing of these entries.
pub fn name_column(entries: &Vec<FileEntry>) -> (r: usize)
    ensures
        r == spec_name_column(entries@),
{
    let n: usize = entries.len();
    if n == 0 {
        return 20;
    }
    let mut w: usize = 0;
    let mut i: usize = 0;
    while i < n
        invariant
            n == entries@.len(),
            0 <= i <= n,
            w == spec_widest_name(entries@.subrange(0, i as int)),
            w <= usize::MAX,
        decreases n - i,
    {
        let name = file_name_of(entries[i].path.as_str());
        let len: usize = name.unicode_len();
        proof {
            assert(entries@.subrange(0, i + 1).drop_last() =~= entries@.subrange(0, i as int));
            assert(entries@.subrange(0, i + 1).last() == entries@[i as int]);
        }
        if len > w {
            w = len;
        }
        i = i + 1;
    }
    proof {
        assert(entries@.subrange(0, n as int) =~= entries@);
    }
    if w <= 30 {
        w
    } else {
        30
    }
}

} // verus!
