//! Name tables: text with one name per line, as the display layer reads them.

use vstd::prelude::*;
use vstd::string::*;

verus! {

/// The lines of `s`, split at every `'\n'`: one more line than there are
/// line feeds, the last one empty when `s` ends in a line feed.
pub open spec fn split_lines(s: Seq<char>) -> Seq<Seq<char>>
    decreases s.len(),
{
    if s.len() == 0 {
        seq![Seq::<char>::empty()]
    } else {
        let p = split_lines(s.drop_last());
        if s.last() == '\n' {
            p.push(Seq::<char>::empty())
        } else {
            p.update(p.len() - 1, p.last().push(s.last()))
        }
    }
}

/// A line without the one `'\r'` that ends it, if any.
pub open spec fn strip_cr(l: Seq<char>) -> Seq<char> {
    if l.len() > 0 && l.last() == '\r' {
        l.drop_last()
    } else {
        l
    }
}

proof fn lemma_split_lines_nonempty(s: Seq<char>)
    ensures
        split_lines(s).len() >= 1,
    decreases s.len(),
{
    if s.len() > 0 {
        lemma_split_lines_nonempty(s.drop_last());
    }
}

/// The line of `s` from `start` to `end`, without a final `'\r'`.
fn line_at(s: &str, start: usize, end: usize) -> (r: String)
    requires
        start <= end <= s@.len(),
    ensures
        r@ == strip_cr(s@.subrange(start as int, end as int)),
{
    let mut e = end;
    if end > start && s.get_char(end - 1) == '\r' {
        e = end - 1;
    }
    let r = String::from_str(s.substring_char(start, e));
    assert(r@ =~= strip_cr(s@.subrange(start as int, end as int)));
    r
}

/// Splits `list` into its lines, dropping the carriage return that ends a
/// line in text with Windows line endings.
pub fn load_string_list(list: &str) -> (r: Vec<String>)
    ensures
        r@.len() == split_lines(list@).len(),
        forall|k: int| 0 <= k < r@.len() ==> (#[trigger] r@[k])@ == strip_cr(split_lines(list@)[k]),
{
    let n = list.unicode_len();
    let mut lines: Vec<String> = Vec::new();
    let mut start: usize = 0;
    let mut i: usize = 0;
    while i < n
        invariant
            n == list@.len(),
            start <= i <= n,
            split_lines(list@.subrange(0, i as int)).len() == lines@.len() + 1,
            forall|k: int|
                0 <= k < lines@.len() ==> (#[trigger] lines@[k])@ == strip_cr(
                    split_lines(list@.subrange(0, i as int))[k],
                ),
            split_lines(list@.subrange(0, i as int)).last() == list@.subrange(start as int, i as int),
        decreases n - i,
    {
        let c = list.get_char(i);
        let ghost p = split_lines(list@.subrange(0, i as int));
        proof {
            let q = list@.subrange(0, i + 1);
            assert(q.drop_last() =~= list@.subrange(0, i as int));
            assert(q.last() == c);
            lemma_split_lines_nonempty(list@.subrange(0, i as int));
        }
        if c == '\n' {
            let l = line_at(list, start, i);
            lines.push(l);
            start = i + 1;
            assert(list@.subrange(start as int, i + 1) =~= Seq::<char>::empty());
        } else {
            assert(list@.subrange(start as int, i + 1) =~= list@.subrange(start as int, i as int).push(c));
        }
        i = i + 1;
    }
    let l = line_at(list, start, n);
    lines.push(l);
    assert(list@.subrange(0, n as int) =~= list@);
    lines
}

} // verus!
