//! Character-level string operations used to build ffmpeg command lines,
//! filter graphs and manifests.

use vstd::prelude::*;

verus! {

/// `String::push` from std: appends one character to the end of the string.
/// Trusted: the contract repeats std's documentation and is not proved.
#[verifier::external_body]
pub(crate) fn push_char(s: &mut String, c: char)
    ensures
        final(s)@ == old(s)@.push(c),
{
    s.push(c);
}

/// The characters of a string slice, in order.
pub fn to_chars(s: &str) -> (r: Vec<char>)
    ensures
        r@ == s@,
{
    let mut r: Vec<char> = Vec::new();
    for c in it: s.chars()
        invariant
            r@ == it.seq().take(it.index() as int),
            it.seq() == s@,
    {
        r.push(c);
    }
    r
}

/// The ASCII digit character for `d` (0 through 9).
pub open spec fn digit_char(d: nat) -> char {
    ((d + 48) as u8) as char
}

/// Decimal notation of a natural number, most significant digit first.
pub open spec fn decimal(n: nat) -> Seq<char>
    decreases n,
{
    if n < 10 {
        seq![digit_char(n)]
    } else {
        decimal(n / 10).push(digit_char(n % 10))
    }
}

/// Appends the decimal notation of `n` to `s`.
pub fn push_decimal(s: &mut String, n: u128)
    ensures
        final(s)@ == old(s)@ + decimal(n as nat),
    decreases n,
{
    if n >= 10 {
        push_decimal(s, n / 10);
    }
    let d: u8 = (n % 10) as u8;
    let c: char = (d + 48) as char;
    push_char(s, c);
    proof {
        assert(old(s)@ + decimal(n as nat) =~= (if n >= 10 { old(s)@ + decimal((n / 10) as nat) } else { old(s)@ }).push(c));
    }
}

/// Decimal notation of `n` as a new string.
pub fn decimal_string(n: u128) -> (r: String)
    ensures
        r@ == decimal(n as nat),
{
    let mut s = String::new();
    push_decimal(&mut s, n);
    proof {
        assert(s@ =~= decimal(n as nat));
    }
    s
}

/// Whether two strings hold the same characters.
pub fn str_eq(a: &str, b: &str) -> (r: bool)
    ensures
        r == (a@ == b@),
{
    let x = to_chars(a);
    let y = to_chars(b);
    if x.len() != y.len() {
        return false;
    }
    let mut i: usize = 0;
    while i < x.len()
        invariant
            x@ == a@,
            y@ == b@,
            x.len() == y.len(),
            i <= x.len(),
            forall|k: int| 0 <= k < i ==> x@[k] == y@[k],
        decreases x.len() - i,
    {
        if x[i] != y[i] {
            return false;
        }
        i += 1;
    }
    assert(x@ =~= y@);
    true
}

/// `needle` occurs in `hay` as a contiguous run of characters.
pub open spec fn occurs_at(hay: Seq<char>, needle: Seq<char>, i: int) -> bool {
    0 <= i && i + needle.len() <= hay.len() && hay.subrange(i, i + needle.len()) == needle
}

/// `needle` occurs somewhere in `hay`.
pub open spec fn seq_contains(hay: Seq<char>, needle: Seq<char>) -> bool {
    exists|i: int| occurs_at(hay, needle, i)
}

/// Whether `needle` occurs in `hay` at position `i` (characters compared one by one).
fn matches_at(hay: &Vec<char>, needle: &Vec<char>, i: usize) -> (r: bool)
    ensures
        r == occurs_at(hay@, needle@, i as int),
{
    if i > hay.len() || needle.len() > hay.len() - i {
        return false;
    }
    let mut k: usize = 0;
    while k < needle.len()
        invariant
            i + needle.len() <= hay.len(),
            k <= needle.len(),
            forall|j: int| 0 <= j < k ==> hay@[i + j] == needle@[j],
        decreases needle.len() - k,
    {
        if hay[i + k] != needle[k] {
            assert(hay@.subrange(i as int, i + needle.len())[k as int] != needle@[k as int]);
            return false;
        }
        k += 1;
    }
    assert(hay@.subrange(i as int, i + needle.len()) =~= needle@);
    true
}

/// Whether `needle` occurs in `hay` (`str::contains` with a string pattern).
pub fn contains(hay: &str, needle: &str) -> (r: bool)
    ensures
        r == seq_contains(hay@, needle@),
{
    let h = to_chars(hay);
    let n = to_chars(needle);
    if n.len() == 0 {
        assert(h@.subrange(0, 0) =~= n@);
        assert(occurs_at(h@, n@, 0));
        return true;
    }
    if n.len() > h.len() {
        return false;
    }
    let last: usize = h.len() - n.len();
    let mut i: usize = 0;
    while i <= last
        invariant
            h@ == hay@,
            n@ == needle@,
            n.len() >= 1,
            last == h.len() - n.len(),
            i <= last + 1,
            forall|j: int| 0 <= j < i ==> !occurs_at(h@, n@, j),
        decreases last + 1 - i,
    {
        if matches_at(&h, &n, i) {
            return true;
        }
        i += 1;
    }
    assert forall|j: int| !occurs_at(h@, n@, j) by {
        if 0 <= j && j < i {
        }
    }
    false
}

/// `s` with every occurrence of `pat` replaced by `rep`, scanning left to right
/// without overlap (the behaviour of `str::replace` for a non-empty pattern).
pub open spec fn replace_all(s: Seq<char>, pat: Seq<char>, rep: Seq<char>) -> Seq<char>
    recommends
        pat.len() > 0,
    decreases s.len(),
{
    if pat.len() == 0 || s.len() < pat.len() {
        s
    } else if s.subrange(0, pat.len() as int) == pat {
        rep + replace_all(s.subrange(pat.len() as int, s.len() as int), pat, rep)
    } else {
        seq![s[0]] + replace_all(s.drop_first(), pat, rep)
    }
}

/// Replaces every occurrence of the non-empty pattern `pat` in `s` by `rep`.
pub fn replace_all_str(s: &str, pat: &str, rep: &str) -> (r: String)
    requires
        pat@.len() > 0,
    ensures
        r@ == replace_all(s@, pat@, rep@),
{
    let sv = to_chars(s);
    let pv = to_chars(pat);
    let n: usize = sv.len();
    let mut r = String::new();
    let mut i: usize = 0;
    assert(sv@.subrange(0, n as int) =~= sv@);
    while i < n
        invariant
            sv@ == s@,
            pv@ == pat@,
            pv@.len() > 0,
            n == sv@.len(),
            i <= n,
            r@ + replace_all(sv@.subrange(i as int, n as int), pv@, rep@) == replace_all(sv@, pv@, rep@),
        decreases n - i,
    {
        let ghost t = sv@.subrange(i as int, n as int);
        let ghost old_r = r@;
        if matches_at(&sv, &pv, i) {
            proof {
                assert(t.subrange(0, pv@.len() as int) =~= sv@.subrange(i as int, i + pv@.len()));
                assert(t.subrange(pv@.len() as int, t.len() as int) =~= sv@.subrange(i + pv@.len(), n as int));
            }
            r.append(rep);
            i += pv.len();
            proof {
                assert(r@ + replace_all(sv@.subrange(i as int, n as int), pv@, rep@)
                    =~= old_r + replace_all(t, pv@, rep@));
            }
        } else {
            proof {
                if t.len() >= pv@.len() {
                    assert(t.subrange(0, pv@.len() as int) =~= sv@.subrange(i as int, i + pv@.len()));
                } else {
                    assert(replace_all(t.drop_first(), pv@, rep@) == t.drop_first());
                    assert(t =~= seq![t[0]] + t.drop_first());
                }
                assert(t.drop_first() =~= sv@.subrange(i + 1, n as int));
            }
            push_char(&mut r, sv[i]);
            i += 1;
            proof {
                assert(r@ + replace_all(sv@.subrange(i as int, n as int), pv@, rep@)
                    =~= old_r + replace_all(t, pv@, rep@));
            }
        }
    }
    proof {
        assert(sv@.subrange(n as int, n as int) =~= Seq::<char>::empty());
        assert(r@ + Seq::<char>::empty() =~= r@);
    }
    r
}

/// The views of a sequence of strings.
pub open spec fn views(v: Seq<String>) -> Seq<Seq<char>> {
    v.map_values(|s: String| s@)
}

/// Appends a copy of `a` to a list of strings.
pub fn push_str_item(v: &mut Vec<String>, a: &str)
    ensures
        views(final(v)@) == views(old(v)@).push(a@),
{
    v.push(a.to_string());
    assert(views(v@) =~= views(old(v)@).push(a@));
}

/// The parts joined into one sequence, with `sep` between consecutive parts.
pub open spec fn join_with(parts: Seq<Seq<char>>, sep: Seq<char>) -> Seq<char>
    decreases parts.len(),
{
    if parts.len() == 0 {
        Seq::empty()
    } else if parts.len() == 1 {
        parts[0]
    } else {
        join_with(parts.drop_last(), sep) + sep + parts.last()
    }
}

/// Joins strings with a separator (`[String]::join`).
pub fn join(parts: &Vec<String>, sep: &str) -> (r: String)
    ensures
        r@ == join_with(views(parts@), sep@),
{
    let mut r = String::new();
    let mut i: usize = 0;
    while i < parts.len()
        invariant
            i <= parts.len(),
            r@ == join_with(views(parts@.take(i as int)), sep@),
        decreases parts.len() - i,
    {
        proof {
            assert(views(parts@.take(i + 1)).drop_last() =~= views(parts@.take(i as int)));
            assert(views(parts@.take(i + 1)).last() == parts@[i as int]@);
        }
        if i > 0 {
            r.append(sep);
        } else {
            assert(views(parts@.take(1)) =~= seq![parts@[0]@]);
        }
        r.append(parts[i].as_str());
        i += 1;
    }
    assert(parts@.take(parts.len() as int) =~= parts@);
    r
}

/// Text in which the pattern does not occur is left as it is.
pub proof fn lemma_replace_without_occurrence(s: Seq<char>, pat: Seq<char>, rep: Seq<char>)
    requires
        pat.len() > 0,
        !seq_contains(s, pat),
    ensures
        replace_all(s, pat, rep) == s,
    decreases s.len(),
{
    if s.len() >= pat.len() {
        if s.subrange(0, pat.len() as int) == pat {
            assert(occurs_at(s, pat, 0));
        }
        assert forall|j: int| !occurs_at(s.drop_first(), pat, j) by {
            if occurs_at(s.drop_first(), pat, j) {
                assert(s.subrange(j + 1, j + 1 + pat.len()) =~= s.drop_first().subrange(j, j + pat.len()));
                assert(occurs_at(s, pat, j + 1));
            }
        }
        lemma_replace_without_occurrence(s.drop_first(), pat, rep);
        assert(s =~= seq![s[0]] + s.drop_first());
    }
}

/// The first occurrence of the pattern is replaced, the text before it is kept, and
/// the replacement goes on in the text after it.
pub proof fn lemma_replace_first_occurrence(s: Seq<char>, pat: Seq<char>, rep: Seq<char>, i: int)
    requires
        pat.len() > 0,
        occurs_at(s, pat, i),
        forall|j: int| 0 <= j < i ==> !occurs_at(s, pat, j),
    ensures
        replace_all(s, pat, rep) == s.subrange(0, i) + rep + replace_all(
            s.subrange(i + pat.len(), s.len() as int),
            pat,
            rep,
        ),
    decreases i,
{
    if i == 0 {
        assert(s.subrange(0, 0) =~= Seq::<char>::empty());
        assert(Seq::<char>::empty() + rep =~= rep);
    } else {
        assert(!occurs_at(s, pat, 0));
        let d = s.drop_first();
        assert(d.subrange(i - 1, i - 1 + pat.len()) =~= s.subrange(i, i + pat.len()));
        assert forall|j: int| 0 <= j < i - 1 implies !occurs_at(d, pat, j) by {
            assert(s.subrange(j + 1, j + 1 + pat.len()) =~= d.subrange(j, j + pat.len()));
            assert(!occurs_at(s, pat, j + 1));
        }
        lemma_replace_first_occurrence(d, pat, rep, i - 1);
        assert(d.subrange(i - 1 + pat.len(), d.len() as int) =~= s.subrange(i + pat.len(), s.len() as int));
        assert(seq![s[0]] + d.subrange(0, i - 1) =~= s.subrange(0, i));
        assert(replace_all(s, pat, rep) == seq![s[0]] + replace_all(d, pat, rep));
        assert(replace_all(s, pat, rep) =~= s.subrange(0, i) + rep + replace_all(
            s.subrange(i + pat.len(), s.len() as int),
            pat,
            rep,
        ));
    }
}

/// The number that a string of decimal digits stands for.
pub open spec fn digits_value(s: Seq<char>) -> int
    decreases s.len(),
{
    if s.len() == 0 {
        0
    } else {
        digits_value(s.drop_last()) * 10 + (s.last() as int - 48)
    }
}

/// Decimal notation is made of the digits `0`-`9`, starts with `0` only for zero, and
/// stands for the number written.
pub proof fn lemma_decimal_reads_back(n: nat)
    ensures
        decimal(n).len() > 0,
        forall|i: int| 0 <= i < decimal(n).len() ==> '0' <= #[trigger] decimal(n)[i] <= '9',
        decimal(n)[0] == '0' ==> n == 0,
        digits_value(decimal(n)) == n,
    decreases n,
{
    if n >= 10 {
        lemma_decimal_reads_back(n / 10);
        let d = decimal(n / 10);
        assert(decimal(n) == d.push(digit_char(n % 10)));
        assert(decimal(n).drop_last() =~= d);
        assert(decimal(n)[0] == d[0]);
        assert(digits_value(decimal(n)) == digits_value(d) * 10 + (n % 10));
        assert(digits_value(d) == n / 10);
        assert((n / 10) * 10 + n % 10 == n) by (nonlinear_arith);
    } else {
        let s = decimal(n);
        assert(s.drop_last() =~= Seq::<char>::empty());
        assert(digit_char(n) as int == n + 48);
        assert(digits_value(s) == digits_value(s.drop_last()) * 10 + (s.last() as int - 48));
    }
}

} // verus!
