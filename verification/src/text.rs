//! Delimiter-separated text: splitting a line into fields, joining fields
//! back into a line, and the proof that splitting undoes joining. The codec
//! builds on these for both the `;`-separated fields of a record line and
//! the `\n`-separated lines of the whole store.

use vstd::prelude::*;

verus! {

/// Index of the first occurrence of `d` in `s`, or `s.len()` when absent.
pub open spec fn find_ch(s: Seq<char>, d: char) -> nat
    decreases s.len(),
{
    if s.len() == 0 {
        0
    } else if s[0] == d {
        0
    } else {
        find_ch(s.drop_first(), d) + 1
    }
}

/// `p` is a prefix of `s`.
pub open spec fn is_prefix_of(p: Seq<char>, s: Seq<char>) -> bool {
    p.len() <= s.len() && s.subrange(0, p.len() as int) == p
}

/// No occurrence of `d` anywhere in `s`.
pub open spec fn free_of(s: Seq<char>, d: char) -> bool {
    forall|i: int| 0 <= i < s.len() ==> s[i] != d
}

/// The fields of `s`, split on the delimiter `d`. Always at least one field;
/// a delimiter at the very end yields a trailing empty field.
pub open spec fn split_on(s: Seq<char>, d: char) -> Seq<Seq<char>>
    decreases s.len(),
{
    let i = find_ch(s, d) as int;
    if i >= s.len() {
        seq![s]
    } else {
        seq![s.subrange(0, i)] + split_on(s.subrange(i + 1, s.len() as int), d)
    }
}

/// The fields joined with the delimiter `d` between consecutive fields.
pub open spec fn join_on(parts: Seq<Seq<char>>, d: char) -> Seq<char>
    decreases parts.len(),
{
    if parts.len() == 0 {
        Seq::empty()
    } else if parts.len() == 1 {
        parts[0]
    } else {
        parts[0] + seq![d] + join_on(parts.drop_first(), d)
    }
}

pub proof fn lemma_find_ch(s: Seq<char>, d: char)
    ensures
        find_ch(s, d) <= s.len(),
        find_ch(s, d) < s.len() ==> s[find_ch(s, d) as int] == d,
        forall|i: int| 0 <= i < find_ch(s, d) ==> s[i] != d,
    decreases s.len(),
{
    if s.len() == 0 {
    } else if s[0] == d {
    } else {
        lemma_find_ch(s.drop_first(), d);
        assert forall|i: int| 0 <= i < find_ch(s, d) implies s[i] != d by {
            if i > 0 {
                assert(s.drop_first()[i - 1] != d);
            }
        }
    }
}

/// The first occurrence is pinned: if nothing before `i` is `d` and `s[i]`
/// is `d`, the find lands exactly on `i`.
pub proof fn lemma_find_ch_at(s: Seq<char>, d: char, i: int)
    requires
        0 <= i < s.len(),
        s[i] == d,
        forall|j: int| 0 <= j < i ==> s[j] != d,
    ensures
        find_ch(s, d) == i,
{
    lemma_find_ch(s, d);
    let f = find_ch(s, d) as int;
    if f < i {
        assert(s[f] == d);
    } else if f > i {
        assert(s[i] != d);
    }
}

/// When `d` does not occur at all, the find runs to the end.
pub proof fn lemma_find_ch_absent(s: Seq<char>, d: char)
    requires
        free_of(s, d),
    ensures
        find_ch(s, d) == s.len(),
{
    lemma_find_ch(s, d);
    if find_ch(s, d) < s.len() {
        assert(s[find_ch(s, d) as int] == d);
    }
}

/// Splitting a string that starts with a delimiter-free field: the field
/// comes off the front and the rest splits on its own.
pub proof fn lemma_split_cons(head: Seq<char>, rest: Seq<char>, d: char)
    requires
        free_of(head, d),
    ensures
        split_on(head + seq![d] + rest, d) == seq![head] + split_on(rest, d),
{
    let s = head + seq![d] + rest;
    assert(s[head.len() as int] == d);
    assert forall|j: int| 0 <= j < head.len() implies s[j] != d by {
        assert(s[j] == head[j]);
    }
    lemma_find_ch_at(s, d, head.len() as int);
    assert(s.subrange(0, head.len() as int) =~= head);
    assert(s.subrange(head.len() as int + 1, s.len() as int) =~= rest);
}

/// Splitting undoes joining, as long as no field contains the delimiter.
pub proof fn lemma_split_join(parts: Seq<Seq<char>>, d: char)
    requires
        parts.len() >= 1,
        forall|i: int| 0 <= i < parts.len() ==> free_of(#[trigger] parts[i], d),
    ensures
        split_on(join_on(parts, d), d) == parts,
    decreases parts.len(),
{
    if parts.len() == 1 {
        lemma_find_ch_absent(parts[0], d);
        assert(split_on(join_on(parts, d), d) =~= parts);
    } else {
        let rest = parts.drop_first();
        assert(forall|i: int| 0 <= i < rest.len() ==> free_of(#[trigger] rest[i], d));
        lemma_split_join(rest, d);
        lemma_split_cons(parts[0], join_on(rest, d), d);
        assert(split_on(join_on(parts, d), d) =~= parts);
    }
}

/// Joining after appending one more field on the right.
pub proof fn lemma_join_snoc(parts: Seq<Seq<char>>, p: Seq<char>, d: char)
    requires
        parts.len() >= 1,
    ensures
        join_on(parts.push(p), d) == join_on(parts, d) + seq![d] + p,
    decreases parts.len(),
{
    if parts.len() == 1 {
        assert(parts.push(p).drop_first() =~= seq![p]);
        assert(parts.push(p)[0] == parts[0]);
        assert(join_on(seq![p], d) == p);
        assert(join_on(parts.push(p), d) =~= join_on(parts, d) + seq![d] + p);
    } else {
        lemma_join_snoc(parts.drop_first(), p, d);
        assert(parts.push(p).drop_first() =~= parts.drop_first().push(p));
        assert(join_on(parts.push(p), d) =~= join_on(parts, d) + seq![d] + p);
    }
}

/// Joining fields that avoid some other character keeps avoiding it.
pub proof fn lemma_join_free(parts: Seq<Seq<char>>, d: char, c: char)
    requires
        c != d,
        forall|i: int| 0 <= i < parts.len() ==> free_of(#[trigger] parts[i], c),
    ensures
        free_of(join_on(parts, d), c),
    decreases parts.len(),
{
    if parts.len() <= 1 {
    } else {
        let rest = parts.drop_first();
        assert(forall|i: int| 0 <= i < rest.len() ==> free_of(#[trigger] rest[i], c));
        lemma_join_free(rest, d, c);
        let s = parts[0] + seq![d] + join_on(rest, d);
        assert forall|i: int| 0 <= i < s.len() implies s[i] != c by {
            if i < parts[0].len() {
                assert(s[i] == parts[0][i]);
            } else if i > parts[0].len() {
                assert(s[i] == join_on(rest, d)[i - parts[0].len() - 1]);
            }
        }
    }
}

/// The views of a sequence of owned strings.
pub open spec fn views_of(v: Seq<String>) -> Seq<Seq<char>> {
    Seq::new(v.len(), |i: int| v[i]@)
}

/// Relies on `String::push` of std: appends exactly one character.
#[verifier::external_body]
pub(crate) fn push_char(s: &mut String, c: char)
    ensures
        final(s)@ == old(s)@.push(c),
{
    s.push(c);
}

/// Index of the first occurrence of `d` in `s` at or after `from`,
/// or the length of `s` when there is none.
pub fn find_char_from(s: &str, d: char, from: usize) -> (r: usize)
    requires
        from <= s@.len(),
    ensures
        from as nat + find_ch(s@.subrange(from as int, s@.len() as int), d) == r as nat,
        r <= s@.len(),
{
    let n = s.unicode_len();
    let ghost tail = s@.subrange(from as int, s@.len() as int);
    let mut i = from;
    while i < n
        invariant
            from <= i <= n,
            n == s@.len(),
            tail == s@.subrange(from as int, s@.len() as int),
            forall|j: int| from <= j < i ==> s@[j] != d,
        decreases n - i,
    {
        if s.get_char(i) == d {
            proof {
                assert(tail[i - from] == d);
                assert forall|j: int| 0 <= j < i - from implies tail[j] != d by {
                    assert(tail[j] == s@[from + j]);
                }
                lemma_find_ch_at(tail, d, i as int - from as int);
            }
            return i;
        }
        i += 1;
    }
    proof {
        assert forall|j: int| 0 <= j < tail.len() implies tail[j] != d by {
            assert(tail[j] == s@[from + j]);
        }
        lemma_find_ch_absent(tail, d);
    }
    n
}

/// The fields of `s`, split on `d`; mirrors `split_on`.
pub fn split_str(s: &str, d: char) -> (r: Vec<String>)
    ensures
        views_of(r@) == split_on(s@, d),
        r@.len() >= 1,
    decreases s@.len(),
{
    let n = s.unicode_len();
    let i = find_char_from(s, d, 0);
    proof {
        assert(s@.subrange(0, s@.len() as int) =~= s@);
    }
    if i == n {
        let mut v: Vec<String> = Vec::new();
        v.push(s.to_owned());
        proof {
            assert(views_of(v@) =~= split_on(s@, d));
        }
        v
    } else {
        let head = s.substring_char(0, i);
        let rest = s.substring_char(i + 1, n);
        let mut v = split_str(rest, d);
        v.insert(0, head.to_owned());
        proof {
            assert(views_of(v@) =~= seq![s@.subrange(0, i as int)] + split_on(
                s@.subrange(i + 1, s@.len() as int),
                d,
            ));
        }
        v
    }
}

/// The fields joined with `d` between consecutive fields; mirrors `join_on`.
pub fn join_strings(fields: &Vec<String>, d: char) -> (r: String)
    requires
        fields@.len() >= 1,
    ensures
        r@ == join_on(views_of(fields@), d),
{
    let mut r = String::new();
    r.append(fields[0].as_str());
    let mut i: usize = 1;
    while i < fields.len()
        invariant
            1 <= i <= fields@.len(),
            r@ == join_on(views_of(fields@.take(i as int)), d),
        decreases fields@.len() - i,
    {
        push_char(&mut r, d);
        r.append(fields[i].as_str());
        proof {
            lemma_join_snoc(views_of(fields@.take(i as int)), fields@[i as int]@, d);
            assert(views_of(fields@.take(i + 1)) =~= views_of(fields@.take(i as int)).push(
                fields@[i as int]@,
            ));
        }
        i += 1;
    }
    proof {
        assert(fields@.take(fields@.len() as int) =~= fields@);
    }
    r
}

/// Two string slices hold the same characters.
pub fn str_eq(a: &str, b: &str) -> (r: bool)
    ensures
        r <==> a@ == b@,
{
    let na = a.unicode_len();
    let nb = b.unicode_len();
    if na != nb {
        return false;
    }
    let mut i: usize = 0;
    while i < na
        invariant
            0 <= i <= na,
            na == a@.len(),
            na == b@.len(),
            forall|j: int| 0 <= j < i ==> a@[j] == b@[j],
        decreases na - i,
    {
        if a.get_char(i) != b.get_char(i) {
            return false;
        }
        i += 1;
    }
    proof {
        assert(a@ =~= b@);
    }
    true
}

} // verus!
