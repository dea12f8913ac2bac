//! File names as the operating system gives them (bytes): extensions compared up to
//! ASCII case, and the byte order in which names are listed.

use vstd::prelude::*;

verus! {

/// A byte with ASCII upper-case letters mapped to lower case.
pub open spec fn ascii_fold(b: u8) -> u8 {
    if 65 <= b && b <= 90 {
        (b + 32) as u8
    } else {
        b
    }
}

/// Two byte sequences are equal up to ASCII case (`eq_ignore_ascii_case`).
pub open spec fn eq_ignore_ascii_case_spec(a: Seq<u8>, b: Seq<u8>) -> bool {
    a.len() == b.len() && forall|i: int| 0 <= i < a.len() ==> ascii_fold(a[i]) == ascii_fold(b[i])
}

fn fold_byte(b: u8) -> (r: u8)
    ensures
        r == ascii_fold(b),
{
    if 65 <= b && b <= 90 {
        b + 32
    } else {
        b
    }
}

/// Whether two byte strings are equal up to ASCII case.
pub fn eq_ignore_ascii_case(a: &[u8], b: &[u8]) -> (r: bool)
    ensures
        r == eq_ignore_ascii_case_spec(a@, b@),
{
    if a.len() != b.len() {
        return false;
    }
    let mut i: usize = 0;
    while i < a.len()
        invariant
            a@.len() == b@.len(),
            i <= a@.len(),
            forall|k: int| 0 <= k < i ==> ascii_fold(a@[k]) == ascii_fold(b@[k]),
        decreases a.len() - i,
    {
        if fold_byte(a[i]) != fold_byte(b[i]) {
            return false;
        }
        i += 1;
    }
    true
}

/// Position of the last `.` in a file name, or -1 when there is none.
pub open spec fn last_dot(name: Seq<u8>) -> int
    decreases name.len(),
{
    if name.len() == 0 {
        -1
    } else if name.last() == 46u8 {
        name.len() - 1
    } else {
        last_dot(name.drop_last())
    }
}

/// Extension of a file name, as `Path::extension` defines it: the part after the
/// last `.`, unless there is no `.`, the only `.` begins the name, or the name is `..`.
pub open spec fn file_extension(name: Seq<u8>) -> Option<Seq<u8>> {
    if name == seq![46u8, 46u8] || last_dot(name) <= 0 {
        None
    } else {
        Some(name.subrange(last_dot(name) + 1, name.len() as int))
    }
}

/// Whether the file name has extension `ext`, compared up to ASCII case.
pub open spec fn has_extension(name: Seq<u8>, ext: Seq<u8>) -> bool {
    match file_extension(name) {
        Some(e) => eq_ignore_ascii_case_spec(e, ext),
        None => false,
    }
}

/// Whether the file name `name` has extension `ext`, ignoring ASCII case.
pub fn has_extension_ignore_case(name: &[u8], ext: &[u8]) -> (r: bool)
    ensures
        r == has_extension(name@, ext@),
{
    let n: usize = name.len();
    if n == 2 && name[0] == 46u8 && name[1] == 46u8 {
        assert(name@ =~= seq![46u8, 46u8]);
        return false;
    }
    proof {
        if name@ == seq![46u8, 46u8] {
            assert(name@[0] == 46u8 && name@[1] == 46u8);
        }
    }
    let mut k: usize = n;
    assert(name@.take(n as int) =~= name@);
    while k > 0 && name[k - 1] != 46u8
        invariant
            n == name@.len(),
            k <= n,
            last_dot(name@) == last_dot(name@.take(k as int)),
        decreases k,
    {
        assert(name@.take(k as int).drop_last() =~= name@.take(k - 1));
        k -= 1;
    }
    proof {
        if k > 0 {
            assert(name@.take(k as int).last() == 46u8);
        } else {
            assert(name@.take(0) =~= Seq::<u8>::empty());
        }
    }
    if k <= 1 {
        return false;
    }
    let e = vstd::slice::slice_subrange(name, k, n);
    eq_ignore_ascii_case(e, ext)
}

/// Byte-wise lexicographic order: `a` comes no later than `b` (the order of `OsStr`).
pub open spec fn lex_le(a: Seq<u8>, b: Seq<u8>) -> bool
    decreases a.len(),
{
    if a.len() == 0 {
        true
    } else if b.len() == 0 {
        false
    } else if a[0] != b[0] {
        a[0] < b[0]
    } else {
        lex_le(a.drop_first(), b.drop_first())
    }
}

/// Any two names are ordered one way or the other.
pub proof fn lemma_lex_total(a: Seq<u8>, b: Seq<u8>)
    ensures
        lex_le(a, b) || lex_le(b, a),
    decreases a.len(),
{
    if a.len() > 0 && b.len() > 0 && a[0] == b[0] {
        lemma_lex_total(a.drop_first(), b.drop_first());
    }
}

/// The order is transitive.
pub proof fn lemma_lex_transitive(a: Seq<u8>, b: Seq<u8>, c: Seq<u8>)
    requires
        lex_le(a, b),
        lex_le(b, c),
    ensures
        lex_le(a, c),
    decreases a.len(),
{
    if a.len() > 0 && a[0] == b[0] && b[0] == c[0] {
        lemma_lex_transitive(a.drop_first(), b.drop_first(), c.drop_first());
    }
}

/// The order is antisymmetric.
pub proof fn lemma_lex_antisymmetric(a: Seq<u8>, b: Seq<u8>)
    requires
        lex_le(a, b),
        lex_le(b, a),
    ensures
        a == b,
    decreases a.len(),
{
    if a.len() > 0 {
        lemma_lex_antisymmetric(a.drop_first(), b.drop_first());
        assert(a =~= seq![a[0]] + a.drop_first());
        assert(b =~= seq![b[0]] + b.drop_first());
    } else {
        assert(b.len() == 0);
        assert(a =~= b);
    }
}

/// Whether `a` comes no later than `b` in byte order.
pub fn lex_le_exec(a: &[u8], b: &[u8]) -> (r: bool)
    ensures
        r == lex_le(a@, b@),
{
    let mut i: usize = 0;
    assert(a@.skip(0) =~= a@);
    assert(b@.skip(0) =~= b@);
    while i < a.len() && i < b.len() && a[i] == b[i]
        invariant
            i <= a@.len(),
            i <= b@.len(),
            lex_le(a@, b@) == lex_le(a@.skip(i as int), b@.skip(i as int)),
        decreases a.len() - i,
    {
        assert(a@.skip(i as int).drop_first() =~= a@.skip(i + 1));
        assert(b@.skip(i as int).drop_first() =~= b@.skip(i + 1));
        i += 1;
    }
    if i == a.len() {
        true
    } else if i == b.len() {
        false
    } else {
        a[i] < b[i]
    }
}

/// The byte contents of a list of names.
pub open spec fn name_views(v: Seq<Vec<u8>>) -> Seq<Seq<u8>> {
    v.map_values(|x: Vec<u8>| x@)
}

/// `name` has a `.` that is not its first byte and after which no `.` follows, the
/// name is not `..`, and the bytes after that `.` equal `ext` up to ASCII case.
pub open spec fn dotted_extension_is(name: Seq<u8>, ext: Seq<u8>) -> bool {
    &&& name != seq![46u8, 46u8]
    &&& exists|d: int|
        0 < d < name.len() && #[trigger] name[d] == 46u8 && (forall|j: int| d < j < name.len() ==> name[j] != 46u8)
            && eq_ignore_ascii_case_spec(name.subrange(d + 1, name.len() as int), ext)
}

proof fn lemma_last_dot(name: Seq<u8>)
    ensures
        -1 <= last_dot(name) < name.len(),
        last_dot(name) >= 0 ==> name[last_dot(name)] == 46u8,
        forall|j: int| last_dot(name) < j < name.len() ==> name[j] != 46u8,
    decreases name.len(),
{
    if name.len() > 0 && name.last() != 46u8 {
        lemma_last_dot(name.drop_last());
        assert forall|j: int| last_dot(name) < j < name.len() implies name[j] != 46u8 by {
            if j < name.len() - 1 {
                assert(name.drop_last()[j] == name[j]);
            }
        }
    }
}

/// A file name has extension `ext` (as `Path::extension` gives it, up to ASCII case)
/// exactly when it ends in a `.`, not its first byte, followed by `ext` and no other `.`.
pub proof fn lemma_extension_characterized(name: Seq<u8>, ext: Seq<u8>)
    ensures
        has_extension(name, ext) <==> dotted_extension_is(name, ext),
{
    lemma_last_dot(name);
    let k = last_dot(name);
    if has_extension(name, ext) {
        assert(name[k] == 46u8);
    }
    if dotted_extension_is(name, ext) {
        let d = choose|d: int|
            0 < d < name.len() && #[trigger] name[d] == 46u8 && (forall|j: int| d < j < name.len() ==> name[j] != 46u8)
                && eq_ignore_ascii_case_spec(name.subrange(d + 1, name.len() as int), ext);
        if k < d {
            assert(name[d] != 46u8);
        }
        if k > d {
            assert(name[k] != 46u8);
        }
        assert(k == d);
    }
}

/// `a` and `b` agree before position `i`, where `a` has the smaller byte.
pub open spec fn first_difference_lower(a: Seq<u8>, b: Seq<u8>, i: int) -> bool {
    0 <= i < a.len() && i < b.len() && a.take(i) == b.take(i) && a[i] < b[i]
}

/// Byte order, said directly: `a` comes no later than `b` exactly when `a` is a prefix
/// of `b`, or at the first position where they differ `a` has the smaller byte.
pub proof fn lemma_lex_le_characterized(a: Seq<u8>, b: Seq<u8>)
    ensures
        lex_le(a, b) <==> ((a.len() <= b.len() && b.take(a.len() as int) == a) || exists|i: int|
            first_difference_lower(a, b, i)),
    decreases a.len(),
{
    if a.len() == 0 {
        assert(b.take(0) =~= a);
    } else if b.len() == 0 {
        assert forall|i: int| !first_difference_lower(a, b, i) by {}
    } else if a[0] != b[0] {
        if a[0] < b[0] {
            assert(a.take(0) =~= b.take(0));
            assert(first_difference_lower(a, b, 0));
        } else {
            if a.len() <= b.len() && b.take(a.len() as int) == a {
                assert(a[0] == b.take(a.len() as int)[0]);
            }
            assert forall|i: int| !first_difference_lower(a, b, i) by {
                if first_difference_lower(a, b, i) && i > 0 {
                    assert(a.take(i)[0] == b.take(i)[0]);
                }
            }
        }
    } else {
        let a1 = a.drop_first();
        let b1 = b.drop_first();
        lemma_lex_le_characterized(a1, b1);
        if a.len() <= b.len() {
            if b.take(a.len() as int) == a {
                assert(b1.take(a1.len() as int) =~= a1);
            }
            if b1.take(a1.len() as int) == a1 {
                assert forall|k: int| 0 <= k < a.len() implies #[trigger] b.take(a.len() as int)[k] == a[k] by {
                    if k > 0 {
                        assert(b1.take(a1.len() as int)[k - 1] == a1[k - 1]);
                    }
                }
                assert(b.take(a.len() as int) =~= a);
            }
        }
        if b1.len() < a1.len() || b1.take(a1.len() as int) != a1 {
            if a.len() <= b.len() && b.take(a.len() as int) == a {
                assert(b1.take(a1.len() as int) =~= a1);
            }
        }
        assert forall|i: int| first_difference_lower(a1, b1, i) implies first_difference_lower(a, b, i + 1) by {
            assert(a.take(i + 1) =~= seq![a[0]] + a1.take(i));
            assert(b.take(i + 1) =~= seq![b[0]] + b1.take(i));
        }
        assert forall|i: int| first_difference_lower(a, b, i) implies i > 0 && first_difference_lower(a1, b1, i - 1) by {
            if i == 0 {
            } else {
                assert(a1.take(i - 1) =~= a.take(i).drop_first());
                assert(b1.take(i - 1) =~= b.take(i).drop_first());
            }
        }
        if exists|i: int| first_difference_lower(a1, b1, i) {
            let i = choose|i: int| first_difference_lower(a1, b1, i);
            assert(first_difference_lower(a, b, i + 1));
        }
        if exists|i: int| first_difference_lower(a, b, i) {
            let i = choose|i: int| first_difference_lower(a, b, i);
            assert(first_difference_lower(a1, b1, i - 1));
        }
    }
}

} // verus!
