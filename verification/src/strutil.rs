//! Small string-building helpers shared by the SQL emitters: appending a
//! single character, joining parts with a separator, and rendering integers
//! as decimal text.

use vstd::prelude::*;
use vstd::string::StringExecFns;

verus! {

/// Relies on std's `String::push`: appends exactly the given character.
#[verifier::external_body]
pub fn push_char(s: &mut String, c: char)
    ensures
        final(s)@ == old(s)@.push(c),
{
    s.push(c);
}

/// The concatenation of `parts` with `sep` between consecutive elements.
pub open spec fn spec_join(parts: Seq<Seq<char>>, sep: Seq<char>) -> Seq<char>
    decreases parts.len(),
{
    if parts.len() == 0 {
        Seq::empty()
    } else if parts.len() == 1 {
        parts[0]
    } else {
        parts[0] + sep + spec_join(parts.drop_first(), sep)
    }
}

/// Joins the strings in `parts`, separated by `sep`.
pub fn join_strings(parts: &Vec<String>, sep: &str) -> (r: String)
    ensures
        r@ == spec_join(parts@.map_values(|p: String| p@), sep@),
{
    let ghost model: Seq<Seq<char>> = parts@.map_values(|p: String| p@);
    let mut r = String::new();
    let mut i: usize = 0;
    while i < parts.len()
        invariant
            i <= parts.len(),
            model == parts@.map_values(|p: String| p@),
            r@ == spec_join(model.take(i as int), sep@),
        decreases parts.len() - i,
    {
        if i > 0 {
            r.append(sep);
        }
        r.append(parts[i].as_str());
        proof {
            lemma_join_snoc(model.take(i as int), model[i as int], sep@);
            assert(model.take(i + 1) == model.take(i as int).push(model[i as int]));
        }
        i = i + 1;
    }
    proof {
        assert(model.take(parts@.len() as int) == model);
    }
    r
}

/// Appending one more part to a join appends the separator (when the join
/// was nonempty) and then the part.
proof fn lemma_join_snoc(parts: Seq<Seq<char>>, last: Seq<char>, sep: Seq<char>)
    ensures
        parts.len() == 0 ==> spec_join(parts.push(last), sep) == last,
        parts.len() > 0 ==> spec_join(parts.push(last), sep) == spec_join(parts, sep) + sep
            + last,
    decreases parts.len(),
{
    if parts.len() == 0 {
        assert(parts.push(last)[0] == last);
    } else if parts.len() == 1 {
        let p = parts.push(last);
        assert(p.len() == 2);
        assert(p[0] == parts[0]);
        assert(p.drop_first() =~= seq![last]);
        assert(spec_join(p.drop_first(), sep) == last);
    } else {
        let p = parts.push(last);
        assert(p.drop_first() =~= parts.drop_first().push(last));
        lemma_join_snoc(parts.drop_first(), last, sep);
    }
}

/// Character-for-character string equality.
pub fn str_eq(a: &str, b: &str) -> (r: bool)
    ensures
        r == (a@ == b@),
{
    let alen = a.unicode_len();
    let blen = b.unicode_len();
    if alen != blen {
        return false;
    }
    let mut i: usize = 0;
    while i < alen
        invariant
            i <= alen,
            alen == a@.len(),
            alen == b@.len(),
            forall|j: int| 0 <= j < i ==> a@[j] == b@[j],
        decreases alen - i,
    {
        if a.get_char(i) != b.get_char(i) {
            return false;
        }
        i = i + 1;
    }
    proof {
        assert(a@ =~= b@);
    }
    true
}

/// The segments of `s` split on the separator: splitting `orders.total`
/// on `.` gives `orders` and `total`; the empty string gives one empty
/// segment.
pub open spec fn spec_split_on(s: Seq<char>, sep: char) -> Seq<Seq<char>>
    decreases s.len(),
{
    if s.len() == 0 {
        seq![Seq::<char>::empty()]
    } else if s[0] == sep {
        seq![Seq::<char>::empty()] + spec_split_on(s.drop_first(), sep)
    } else {
        let rest = spec_split_on(s.drop_first(), sep);
        seq![seq![s[0]] + rest[0]] + rest.drop_first()
    }
}

/// The segments of `s` split on `.`.
pub open spec fn spec_split_dots(s: Seq<char>) -> Seq<Seq<char>> {
    spec_split_on(s, '.')
}

/// Splitting always yields at least one segment.
pub proof fn lemma_split_on_len(s: Seq<char>, sep: char)
    ensures
        spec_split_on(s, sep).len() >= 1,
    decreases s.len(),
{
    if s.len() > 0 {
        lemma_split_on_len(s.drop_first(), sep);
    }
}

/// Extending the input by one character extends the split: a dot starts a
/// new empty segment, any other character is appended to the last segment.
proof fn lemma_split_on_snoc(t: Seq<char>, c: char, sep: char)
    ensures
        c == sep ==> spec_split_on(t.push(c), sep) == spec_split_on(t, sep).push(
            Seq::<char>::empty(),
        ),
        c != sep ==> spec_split_on(t.push(c), sep) == spec_split_on(t, sep).update(
            spec_split_on(t, sep).len() - 1,
            spec_split_on(t, sep).last().push(c),
        ),
    decreases t.len(),
{
    lemma_split_on_len(t, sep);
    if t.len() == 0 {
        assert(t.push(c) =~= seq![c]);
        assert(t.push(c)[0] == c);
        assert(t.push(c).drop_first() =~= Seq::<char>::empty());
        assert(spec_split_on(t, sep) == seq![Seq::<char>::empty()]);
        assert(spec_split_on(t.push(c).drop_first(), sep) == seq![Seq::<char>::empty()]);
        if c == sep {
            assert(spec_split_on(t.push(c), sep) =~= spec_split_on(t, sep).push(Seq::<char>::empty()));
        } else {
            assert(spec_split_on(t.push(c), sep) =~= spec_split_on(t, sep).update(
                0,
                spec_split_on(t, sep).last().push(c),
            ));
        }
    } else {
        let u = t.drop_first();
        lemma_split_on_len(u, sep);
        assert(t.push(c).drop_first() =~= u.push(c));
        lemma_split_on_snoc(u, c, sep);
        if t[0] == sep {
            if c == sep {
                assert(spec_split_on(t.push(c), sep) =~= spec_split_on(t, sep).push(
                    Seq::<char>::empty(),
                ));
            } else {
                assert(spec_split_on(t.push(c), sep) =~= spec_split_on(t, sep).update(
                    spec_split_on(t, sep).len() - 1,
                    spec_split_on(t, sep).last().push(c),
                ));
            }
        } else {
            let rest = spec_split_on(u, sep);
            let rest2 = spec_split_on(u.push(c), sep);
            if c == sep {
                assert(rest2 == rest.push(Seq::<char>::empty()));
                assert(rest2[0] == rest[0]);
                assert(rest2.drop_first() =~= rest.drop_first().push(Seq::<char>::empty()));
                assert(spec_split_on(t.push(c), sep) =~= spec_split_on(t, sep).push(
                    Seq::<char>::empty(),
                ));
            } else {
                assert(rest2 == rest.update(rest.len() - 1, rest.last().push(c)));
                if rest.len() == 1 {
                    assert(rest2[0] == rest.last().push(c));
                    assert(rest2.drop_first() =~= rest.drop_first());
                    assert(spec_split_on(t.push(c), sep) =~= spec_split_on(t, sep).update(
                        spec_split_on(t, sep).len() - 1,
                        spec_split_on(t, sep).last().push(c),
                    ));
                } else {
                    assert(rest2[0] == rest[0]);
                    assert(rest2.drop_first() =~= rest.drop_first().update(
                        rest.len() - 2,
                        rest.last().push(c),
                    ));
                    assert(spec_split_on(t.push(c), sep) =~= spec_split_on(t, sep).update(
                        spec_split_on(t, sep).len() - 1,
                        spec_split_on(t, sep).last().push(c),
                    ));
                }
            }
        }
    }
}

/// Splits `s` at every occurrence of the separator.
pub fn split_on(s: &str, sep: char) -> (r: Vec<String>)
    ensures
        r@.map_values(|p: String| p@) == spec_split_on(s@, sep),
        r@.len() >= 1,
{
    let len = s.unicode_len();
    let mut parts: Vec<String> = Vec::new();
    let mut cur = String::new();
    let mut i: usize = 0;
    while i < len
        invariant
            i <= len,
            len == s@.len(),
            parts@.map_values(|p: String| p@).push(cur@) == spec_split_on(s@.take(i as int), sep),
        decreases len - i,
    {
        let c = s.get_char(i);
        proof {
            lemma_split_on_snoc(s@.take(i as int), s@[i as int], sep);
            assert(s@.take(i + 1) == s@.take(i as int).push(s@[i as int]));
            lemma_split_on_len(s@.take(i as int), sep);
        }
        if c == sep {
            let ghost old_parts = parts@.map_values(|p: String| p@);
            parts.push(cur);
            cur = String::new();
            proof {
                assert(parts@.map_values(|p: String| p@) =~= old_parts.push(
                    spec_split_on(s@.take(i as int), sep).last(),
                ));
                assert(parts@.map_values(|p: String| p@).push(cur@) =~= spec_split_on(
                    s@.take(i + 1),
                    sep,
                ));
            }
        } else {
            let ghost old_join = parts@.map_values(|p: String| p@).push(cur@);
            push_char(&mut cur, c);
            proof {
                assert(parts@.map_values(|p: String| p@).push(cur@) =~= old_join.update(
                    old_join.len() - 1,
                    old_join.last().push(s@[i as int]),
                ));
            }
        }
        i = i + 1;
    }
    proof {
        assert(s@.take(len as int) == s@);
    }
    parts.push(cur);
    proof {
        assert(parts@.map_values(|p: String| p@) =~= spec_split_on(s@, sep));
    }
    parts
}


/// Splits `s` at every `.` character.
pub fn split_dots(s: &str) -> (r: Vec<String>)
    ensures
        r@.map_values(|p: String| p@) == spec_split_dots(s@),
        r@.len() >= 1,
{
    split_on(s, '.')
}

/// The decimal digit character for `d` (which must be below ten).
pub open spec fn spec_digit(d: int) -> char {
    if d == 0 {
        '0'
    } else if d == 1 {
        '1'
    } else if d == 2 {
        '2'
    } else if d == 3 {
        '3'
    } else if d == 4 {
        '4'
    } else if d == 5 {
        '5'
    } else if d == 6 {
        '6'
    } else if d == 7 {
        '7'
    } else if d == 8 {
        '8'
    } else {
        '9'
    }
}

/// The decimal digit sequence of `n`, most significant digit first.
pub open spec fn spec_decimal(n: nat) -> Seq<char>
    decreases n,
{
    if n < 10 {
        seq![spec_digit(n as int)]
    } else {
        spec_decimal(n / 10) + seq![spec_digit((n % 10) as int)]
    }
}

/// The decimal rendering of a signed integer: a minus sign for negative
/// values, then the digits of the magnitude.
pub open spec fn spec_decimal_int(n: int) -> Seq<char> {
    if n < 0 {
        seq!['-'] + spec_decimal((-n) as nat)
    } else {
        spec_decimal(n as nat)
    }
}

fn digit_str(d: u64) -> (r: &'static str)
    requires
        d < 10,
    ensures
        r@ == seq![spec_digit(d as int)],
{
    let r = if d == 0 {
        "0"
    } else if d == 1 {
        "1"
    } else if d == 2 {
        "2"
    } else if d == 3 {
        "3"
    } else if d == 4 {
        "4"
    } else if d == 5 {
        "5"
    } else if d == 6 {
        "6"
    } else if d == 7 {
        "7"
    } else if d == 8 {
        "8"
    } else {
        "9"
    };
    proof {
        reveal_strlit("0");
        reveal_strlit("1");
        reveal_strlit("2");
        reveal_strlit("3");
        reveal_strlit("4");
        reveal_strlit("5");
        reveal_strlit("6");
        reveal_strlit("7");
        reveal_strlit("8");
        reveal_strlit("9");
        assert(r@ =~= seq![spec_digit(d as int)]);
    }
    r
}

/// Renders `n` in decimal.
pub fn u64_to_string(n: u64) -> (r: String)
    ensures
        r@ == spec_decimal(n as nat),
    decreases n,
{
    if n < 10 {
        String::from_str(digit_str(n))
    } else {
        let mut r = u64_to_string(n / 10);
        r.append(digit_str(n % 10));
        proof {
            assert(r@ =~= spec_decimal(n as nat));
        }
        r
    }
}

/// Renders `n` in decimal.
pub fn u128_to_string(n: u128) -> (r: String)
    ensures
        r@ == spec_decimal(n as nat),
    decreases n,
{
    if n < 10 {
        String::from_str(digit_str((n as u64) % 10))
    } else {
        let mut r = u128_to_string(n / 10);
        r.append(digit_str((n % 10) as u64));
        proof {
            assert(r@ =~= spec_decimal(n as nat));
        }
        r
    }
}

/// Renders `n` in decimal, with a leading minus sign when negative.
pub fn i64_to_string(n: i64) -> (r: String)
    ensures
        r@ == spec_decimal_int(n as int),
{
    if n >= 0 {
        u64_to_string(n as u64)
    } else {
        // The magnitude of `n` computed without overflowing: for i64::MIN,
        // -n itself does not fit in an i64.
        let magnitude: u64 = (-(n + 1)) as u64 + 1;
        assert(magnitude == (-(n as int)) as nat);
        let mut r = String::from_str("-");
        let digits = u64_to_string(magnitude);
        r.append(digits.as_str());
        proof {
            reveal_strlit("-");
            assert(r@ =~= spec_decimal_int(n as int));
        }
        r
    }
}


/// `needle` occurs in `hay` as a contiguous run.
pub open spec fn contains_sub(hay: Seq<char>, needle: Seq<char>) -> bool {
    exists|k: int|
        0 <= k <= hay.len() - needle.len() && #[trigger] hay.subrange(k, k + needle.len() as int)
            == needle
}

/// Whether `needle` occurs in `hay`.
pub fn str_contains(hay: &str, needle: &str) -> (r: bool)
    ensures
        r == contains_sub(hay@, needle@),
{
    let hlen = hay.unicode_len();
    let nlen = needle.unicode_len();
    if nlen > hlen {
        return false;
    }
    let mut k: usize = 0;
    while k <= hlen - nlen
        invariant
            nlen <= hlen,
            hlen == hay@.len(),
            nlen == needle@.len(),
            k <= hlen - nlen + 1,
            forall|k0: int|
                0 <= k0 < k ==> #[trigger] hay@.subrange(k0, k0 + needle@.len() as int)
                    != needle@,
        decreases hlen - nlen + 1 - k,
    {
        let mut j: usize = 0;
        let mut matched = true;
        while j < nlen
            invariant
                j <= nlen,
                k + nlen <= hlen,
                hlen == hay@.len(),
                nlen == needle@.len(),
                matched ==> forall|j0: int|
                    0 <= j0 < j ==> hay@[k + j0] == needle@[j0],
                !matched ==> exists|j0: int|
                    0 <= j0 < j && hay@[k + j0] != #[trigger] needle@[j0],
            decreases nlen - j,
        {
            if hay.get_char(k + j) != needle.get_char(j) {
                matched = false;
            }
            j = j + 1;
        }
        if matched {
            proof {
                assert(hay@.subrange(k as int, k as int + needle@.len() as int) =~= needle@);
            }
            return true;
        }
        proof {
            assert(hay@.subrange(k as int, k as int + needle@.len() as int) != needle@) by {
                let j0 = choose|j0: int|
                    0 <= j0 < nlen && hay@[k + j0] != #[trigger] needle@[j0];
                assert(hay@.subrange(k as int, k as int + needle@.len() as int)[j0] == hay@[k
                    + j0]);
            }
        }
        k = k + 1;
    }
    proof {
        assert(!contains_sub(hay@, needle@));
    }
    false
}

} // verus!
