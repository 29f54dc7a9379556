use vstd::prelude::*;
use vstd::slice::slice_subrange;

verus! {

/// ASCII space, the separator of a process-state line.
pub const SPACE: u8 = 32;

/// ASCII `.`, the separator of a peer entry's name.
pub const DOT: u8 = 46;

/// Where the field that starts at `from` ends: the position of the first
/// `sep` at or after `from`, or the end of `s` where there is none.
pub open spec fn field_end(s: Seq<u8>, sep: u8, from: int) -> int
    decreases s.len() - from,
{
    if from >= s.len() {
        s.len() as int
    } else if s[from] == sep {
        from
    } else {
        field_end(s, sep, from + 1)
    }
}

/// The last position of `b` in `s`, if `b` occurs there.
pub open spec fn last_index_of(s: Seq<u8>, b: u8) -> Option<int>
    decreases s.len(),
{
    if s.len() == 0 {
        None
    } else if s.last() == b {
        Some(s.len() - 1)
    } else {
        last_index_of(s.drop_last(), b)
    }
}

/// Where field number `k` (counted from 0) of `s` starts, when `s` is cut
/// at every `sep`; `None` where `s` has `k` fields or fewer. Two
/// separators in a row enclose an empty field.
pub open spec fn field_start(s: Seq<u8>, sep: u8, k: nat) -> Option<int>
    decreases k,
{
    if k == 0 {
        Some(0)
    } else {
        match field_start(s, sep, (k - 1) as nat) {
            Some(p) => {
                let e = field_end(s, sep, p);
                if e < s.len() {
                    Some(e + 1)
                } else {
                    None
                }
            },
            None => None,
        }
    }
}

/// Field number `k` of `s`, without its separators.
pub open spec fn field(s: Seq<u8>, sep: u8, k: nat) -> Option<Seq<u8>> {
    match field_start(s, sep, k) {
        Some(p) => Some(s.subrange(p, field_end(s, sep, p))),
        None => None,
    }
}

/// The end of a field is within the text, no separator lies inside the
/// field, and a separator stands at its end unless the text ends there.
pub proof fn lemma_field_end(s: Seq<u8>, sep: u8, from: int)
    requires
        0 <= from <= s.len(),
    ensures
        from <= field_end(s, sep, from) <= s.len(),
        forall|j: int| from <= j < field_end(s, sep, from) ==> s[j] != sep,
        field_end(s, sep, from) < s.len() ==> s[field_end(s, sep, from)] == sep,
    decreases s.len() - from,
{
    if from < s.len() && s[from] != sep {
        lemma_field_end(s, sep, from + 1);
    }
}

/// A stretch that holds no separator, and ends at a separator or at the
/// end of the text, is a field.
pub proof fn lemma_field_end_is(s: Seq<u8>, sep: u8, from: int, e: int)
    requires
        0 <= from <= e <= s.len(),
        forall|j: int| from <= j < e ==> s[j] != sep,
        e < s.len() ==> s[e] == sep,
    ensures
        field_end(s, sep, from) == e,
    decreases e - from,
{
    if from < e {
        lemma_field_end_is(s, sep, from + 1, e);
    }
}

/// The last position of a byte holds it and nothing after does; without a
/// last position the byte does not occur.
pub proof fn lemma_last_index_of(s: Seq<u8>, b: u8)
    ensures
        match last_index_of(s, b) {
            Some(i) => 0 <= i < s.len() && s[i] == b && forall|j: int| i < j < s.len() ==> s[j] != b,
            None => forall|j: int| 0 <= j < s.len() ==> s[j] != b,
        },
    decreases s.len(),
{
    if s.len() > 0 && s.last() != b {
        lemma_last_index_of(s.drop_last(), b);
        assert forall|j: int| 0 <= j < s.len() - 1 implies s[j] == s.drop_last()[j] by {}
    }
}

/// A position that holds the byte, with none after it, is the last.
pub proof fn lemma_last_index_is(s: Seq<u8>, b: u8, i: int)
    requires
        0 <= i < s.len(),
        s[i] == b,
        forall|j: int| i < j < s.len() ==> s[j] != b,
    ensures
        last_index_of(s, b) == Some(i),
    decreases s.len(),
{
    if i < s.len() - 1 {
        assert(s.drop_last()[i] == s[i]);
        assert forall|j: int| i < j < s.drop_last().len() implies s.drop_last()[j] != b by {
            assert(s.drop_last()[j] == s[j]);
        }
        lemma_last_index_is(s.drop_last(), b, i);
    }
}

/// Finds the last position of `b` in `s`.
pub fn find_last(s: &[u8], b: u8) -> (r: Option<usize>)
    ensures
        match r {
            Some(i) => last_index_of(s@, b) == Some(i as int) && i < s@.len(),
            None => last_index_of(s@, b) is None,
        },
{
    let mut i: usize = s.len();
    assert(s@.take(i as int) =~= s@);
    while i > 0
        invariant
            i <= s@.len(),
            last_index_of(s@, b) == last_index_of(s@.take(i as int), b),
        decreases i,
    {
        i = i - 1;
        assert(s@.take(i + 1).last() == s@[i as int]);
        assert(s@.take(i + 1).drop_last() =~= s@.take(i as int));
        if s[i] == b {
            return Some(i);
        }
    }
    None
}

/// Finds the end of the field of `s` that starts at `from`.
pub fn find_field_end(s: &[u8], sep: u8, from: usize) -> (e: usize)
    requires
        from <= s@.len(),
    ensures
        e == field_end(s@, sep, from as int),
        from <= e <= s@.len(),
{
    let n: usize = s.len();
    let mut i: usize = from;
    while i < n && s[i] != sep
        invariant
            n == s@.len(),
            from <= i <= n,
            field_end(s@, sep, from as int) == field_end(s@, sep, i as int),
        decreases n - i,
    {
        i = i + 1;
    }
    i
}

/// Finds where field number `k` of `s` starts.
pub fn find_field_start(s: &[u8], sep: u8, k: usize) -> (r: Option<usize>)
    ensures
        match r {
            Some(p) => field_start(s@, sep, k as nat) == Some(p as int) && p <= s@.len(),
            None => field_start(s@, sep, k as nat) is None,
        },
{
    let n: usize = s.len();
    let mut pos: usize = 0;
    let mut j: usize = 0;
    while j < k
        invariant
            n == s@.len(),
            j <= k,
            pos <= n,
            field_start(s@, sep, j as nat) == Some(pos as int),
        decreases k - j,
    {
        let e: usize = find_field_end(s, sep, pos);
        if e >= n {
            proof {
                lemma_no_later_field(s@, sep, (j + 1) as nat, k as nat);
            }
            return None;
        }
        pos = e + 1;
        j = j + 1;
    }
    Some(pos)
}

/// Once a field is missing, so is every later one.
pub proof fn lemma_no_later_field(s: Seq<u8>, sep: u8, j: nat, k: nat)
    requires
        j <= k,
        field_start(s, sep, j) is None,
    ensures
        field_start(s, sep, k) is None,
    decreases k,
{
    if j < k {
        lemma_no_later_field(s, sep, j, (k - 1) as nat);
    }
}

/// Cuts field number `k` out of `s`.
pub fn nth_field<'a>(s: &'a [u8], sep: u8, k: usize) -> (r: Option<&'a [u8]>)
    ensures
        match r {
            Some(f) => field(s@, sep, k as nat) == Some(f@),
            None => field(s@, sep, k as nat) is None,
        },
{
    match find_field_start(s, sep, k) {
        Some(p) => {
            let e: usize = find_field_end(s, sep, p);
            Some(slice_subrange(s, p, e))
        },
        None => None,
    }
}

/// Appends `tail` to `text`.
pub fn append_bytes(text: &mut Vec<u8>, tail: &[u8])
    ensures
        final(text)@ == old(text)@ + tail@,
{
    let ghost before = text@;
    let mut i: usize = 0;
    while i < tail.len()
        invariant
            i <= tail@.len(),
            text@ == before + tail@.take(i as int),
        decreases tail@.len() - i,
    {
        text.push(tail[i]);
        assert(tail@.take(i + 1) =~= tail@.take(i as int).push(tail@[i as int]));
        assert(text@ =~= before + tail@.take(i + 1));
        i = i + 1;
    }
    assert(tail@.take(i as int) =~= tail@);
}

} // verus!
