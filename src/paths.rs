//! Path strings: joining a directory with a child name, and the final segment
//! of a path, which names a mod's link inside a profile directory.

use vstd::prelude::*;

verus! {

pub open spec fn is_separator(c: char) -> bool {
    c == '/' || c == '\\'
}

/// `s` without the separators at its end.
pub open spec fn trim_trailing_separators(s: Seq<char>) -> Seq<char>
    decreases s.len(),
{
    if s.len() > 0 && is_separator(s.last()) {
        trim_trailing_separators(s.drop_last())
    } else {
        s
    }
}

/// The characters after the last separator of `s`.
pub open spec fn last_segment(s: Seq<char>) -> Seq<char>
    decreases s.len(),
{
    if s.len() == 0 {
        s
    } else if is_separator(s.last()) {
        Seq::empty()
    } else {
        last_segment(s.drop_last()).push(s.last())
    }
}

/// The folder name of a path: its last segment, trailing separators ignored.
pub open spec fn folder_name_of(path: Seq<char>) -> Seq<char> {
    last_segment(trim_trailing_separators(path))
}

/// `base` followed by `name`, with one `/` between them where `base` does not
/// already end in a separator.
pub open spec fn join_of(base: Seq<char>, name: Seq<char>) -> Seq<char> {
    if base.len() == 0 || is_separator(base.last()) {
        base + name
    } else {
        base + seq!['/'] + name
    }
}

fn is_separator_char(c: char) -> (r: bool)
    ensures
        r == is_separator(c),
{
    c == '/' || c == '\\'
}

proof fn lemma_trim_prefix(s: Seq<char>, end: int)
    requires
        0 <= end <= s.len(),
        forall|k: int| end <= k < s.len() ==> is_separator(#[trigger] s[k]),
    ensures
        trim_trailing_separators(s) == trim_trailing_separators(s.subrange(0, end)),
    decreases s.len(),
{
    if end < s.len() {
        assert(s.drop_last() =~= s.subrange(0, s.len() - 1));
        lemma_trim_prefix(s.drop_last(), end);
        assert(s.drop_last().subrange(0, end) =~= s.subrange(0, end));
    } else {
        assert(s.subrange(0, end) =~= s);
    }
}

proof fn lemma_segment_suffix(s: Seq<char>, start: int)
    requires
        0 <= start <= s.len(),
        forall|k: int| start <= k < s.len() ==> !is_separator(#[trigger] s[k]),
        start == 0 || is_separator(s[start - 1]),
    ensures
        last_segment(s) == s.subrange(start, s.len() as int),
    decreases s.len(),
{
    if s.len() == start {
        assert(s.subrange(start, s.len() as int) =~= Seq::<char>::empty());
        if s.len() > 0 {
            assert(is_separator(s.last()));
        }
    } else {
        lemma_segment_suffix(s.drop_last(), start);
        assert(s.subrange(start, s.len() as int) =~= s.drop_last().subrange(
            start,
            s.len() - 1,
        ).push(s.last()));
    }
}

/// The folder name of `path`: the text after its last separator, trailing
/// separators ignored. Empty where `path` holds no such text.
pub fn folder_name(path: &str) -> (r: String)
    ensures
        r@ == folder_name_of(path@),
{
    let n = path.unicode_len();
    let mut end: usize = n;
    while end > 0 && is_separator_char(path.get_char(end - 1))
        invariant
            n == path@.len(),
            end <= n,
            forall|k: int| end <= k < n ==> is_separator(#[trigger] path@[k]),
        decreases end,
    {
        end = end - 1;
    }
    let ghost trimmed = path@.subrange(0, end as int);
    proof {
        lemma_trim_prefix(path@, end as int);
        assert(trim_trailing_separators(trimmed) == trimmed);
    }
    let mut start: usize = end;
    while start > 0 && !is_separator_char(path.get_char(start - 1))
        invariant
            n == path@.len(),
            start <= end <= n,
            forall|k: int| start <= k < end ==> !is_separator(#[trigger] path@[k]),
        decreases start,
    {
        start = start - 1;
    }
    proof {
        assert forall|k: int| start <= k < trimmed.len() implies !is_separator(
            #[trigger] trimmed[k],
        ) by {
            assert(trimmed[k] == path@[k]);
        }
        if start > 0 {
            assert(trimmed[start - 1] == path@[start - 1]);
        }
        lemma_segment_suffix(trimmed, start as int);
        assert(trimmed.subrange(start as int, end as int) =~= path@.subrange(
            start as int,
            end as int,
        ));
    }
    path.substring_char(start, end).to_string()
}

/// Whether two strings hold the same characters.
pub fn same_text(a: &str, b: &str) -> (r: bool)
    ensures
        r == (a@ == b@),
{
    let x = a.to_string();
    let y = b.to_string();
    x == y
}

/// `base` joined with the child `name`.
pub fn join(base: &str, name: &str) -> (r: String)
    ensures
        r@ == join_of(base@, name@),
{
    let n = base.unicode_len();
    if n == 0 || is_separator_char(base.get_char(n - 1)) {
        base.to_string().concat(name)
    } else {
        proof {
            reveal_strlit("/");
        }
        base.to_string().concat("/").concat(name)
    }
}

} // verus!
