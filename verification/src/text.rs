//! Character-level text utilities: splitting a character sequence on a
//! separator, and parsing signed decimal integers, both specified exactly.

use vstd::prelude::*;

verus! {

/// Splitting a character sequence on a separator character, in the manner of
/// `str::split`: the result always holds at least one piece, and a separator
/// at either edge contributes an empty piece there.
pub open spec fn split_char(s: Seq<char>, sep: char) -> Seq<Seq<char>>
    decreases s.len(),
{
    if s.len() == 0 {
        seq![Seq::<char>::empty()]
    } else if s[0] == sep {
        seq![Seq::<char>::empty()] + split_char(s.drop_first(), sep)
    } else {
        let rest = split_char(s.drop_first(), sep);
        seq![seq![s[0]] + rest[0]] + rest.drop_first()
    }
}

pub proof fn lemma_split_char_nonempty(s: Seq<char>, sep: char)
    ensures
        split_char(s, sep).len() >= 1,
    decreases s.len(),
{
    if s.len() != 0 && s[0] != sep {
        lemma_split_char_nonempty(s.drop_first(), sep);
    }
}

/// Appending one character extends the last piece, or opens a new empty
/// piece when the character is the separator.
pub proof fn lemma_split_char_push(s: Seq<char>, sep: char, c: char)
    ensures
        split_char(s, sep).len() >= 1,
        c == sep ==> split_char(s.push(c), sep) == split_char(s, sep).push(Seq::<char>::empty()),
        c != sep ==> split_char(s.push(c), sep) == split_char(s, sep).update(
            split_char(s, sep).len() - 1,
            split_char(s, sep).last().push(c),
        ),
    decreases s.len(),
{
    lemma_split_char_nonempty(s, sep);
    if s.len() == 0 {
        assert(s.push(c).drop_first() =~= Seq::<char>::empty());
        assert(split_char(Seq::<char>::empty(), sep) == seq![Seq::<char>::empty()]);
        if c == sep {
            assert(split_char(s.push(c), sep) =~~= split_char(s, sep).push(Seq::<char>::empty()));
        } else {
            assert(seq![s.push(c)[0]] + split_char(Seq::<char>::empty(), sep)[0] =~= seq![c]);
            assert(split_char(s, sep).last().push(c) =~= seq![c]);
            assert(split_char(s.push(c), sep) =~~= split_char(s, sep).update(
                0,
                split_char(s, sep).last().push(c),
            ));
        }
    } else {
        lemma_split_char_push(s.drop_first(), sep, c);
        lemma_split_char_nonempty(s.drop_first(), sep);
        assert(s.push(c).drop_first() =~= s.drop_first().push(c));
        assert(s.push(c)[0] == s[0]);
        if s[0] == sep {
            if c == sep {
                assert(split_char(s.push(c), sep) =~~= split_char(s, sep).push(
                    Seq::<char>::empty(),
                ));
            } else {
                assert(split_char(s.push(c), sep) =~~= split_char(s, sep).update(
                    split_char(s, sep).len() - 1,
                    split_char(s, sep).last().push(c),
                ));
            }
        } else {
            let rest = split_char(s.drop_first(), sep);
            if c == sep {
                assert(split_char(s.drop_first().push(c), sep)[0] == rest[0]);
                assert(split_char(s.push(c), sep) =~~= split_char(s, sep).push(
                    Seq::<char>::empty(),
                ));
            } else {
                if rest.len() == 1 {
                    assert(split_char(s.drop_first().push(c), sep)[0] == rest[0].push(c));
                    assert(split_char(s, sep).last() == seq![s[0]] + rest[0]);
                    assert((seq![s[0]] + rest[0].push(c)) =~= (seq![s[0]] + rest[0]).push(c));
                    assert(split_char(s.push(c), sep) =~~= split_char(s, sep).update(
                        split_char(s, sep).len() - 1,
                        split_char(s, sep).last().push(c),
                    ));
                } else {
                    assert(split_char(s.drop_first().push(c), sep)[0] == rest[0]);
                    assert(split_char(s, sep).last() == rest.last());
                    assert(split_char(s.push(c), sep) =~~= split_char(s, sep).update(
                        split_char(s, sep).len() - 1,
                        split_char(s, sep).last().push(c),
                    ));
                }
            }
        }
    }
}

/// The views of a vector of character vectors.
pub open spec fn piece_views(v: Seq<Vec<char>>) -> Seq<Seq<char>> {
    v.map_values(|p: Vec<char>| p@)
}

/// Split a character vector on a separator character, `str::split` style.
pub fn split_on(chars: &Vec<char>, sep: char) -> (r: Vec<Vec<char>>)
    ensures
        piece_views(r@) == split_char(chars@, sep),
        r@.len() >= 1,
{
    let mut done: Vec<Vec<char>> = Vec::new();
    let mut cur: Vec<char> = Vec::new();
    let n = chars.len();
    assert(piece_views(done@).push(cur@) =~= split_char(chars@.take(0), sep));
    for i in 0..n
        invariant
            n == chars@.len(),
            piece_views(done@).push(cur@) == split_char(chars@.take(i as int), sep),
    {
        proof {
            lemma_split_char_push(chars@.take(i as int), sep, chars@[i as int]);
            assert(chars@.take(i + 1) =~= chars@.take(i as int).push(chars@[i as int]));
        }
        let c = chars[i];
        if c == sep {
            done.push(cur);
            cur = Vec::new();
            proof {
                assert(piece_views(done@).push(cur@) =~= split_char(chars@.take(i + 1), sep));
            }
        } else {
            cur.push(c);
            proof {
                let prev = split_char(chars@.take(i as int), sep);
                assert(prev.last() == cur@.drop_last());
                assert(cur@.drop_last().push(cur@.last()) =~= cur@);
                assert(piece_views(done@).push(cur@) =~= prev.update(
                    prev.len() - 1,
                    prev.last().push(chars@[i as int]),
                ));
            }
        }
    }
    proof {
        assert(chars@.take(n as int) =~= chars@);
    }
    done.push(cur);
    proof {
        assert(piece_views(done@) =~= split_char(chars@, sep));
    }
    done
}

/// The characters of a string, as a vector.
pub fn chars_vec(s: &str) -> (r: Vec<char>)
    ensures
        r@ == s@,
{
    let mut r: Vec<char> = Vec::new();
    for c in it: s.chars()
        invariant
            r@ == it.seq().take(it.index() as int),
            it.seq() == s@,
    {
        r.push(c);
        proof {
            assert(it.seq().take(it.index() + 1) =~= it.seq().take(it.index() as int).push(
                it.seq()[it.index() as int],
            ));
        }
    }
    proof {
        assert(s@.take(s@.len() as int) =~= s@);
    }
    r
}

/// Relies on `String: FromIterator<char>`: collecting characters yields the
/// string of exactly those characters.
#[verifier::external_body]
pub fn string_from_chars(v: &Vec<char>) -> (r: String)
    ensures
        r@ == v@,
{
    v.iter().collect()
}

/// A string with the whitespace at both ends removed, as `str::trim`
/// defines it (Unicode white space).
pub uninterp spec fn trimmed(s: Seq<char>) -> Seq<char>;

/// Relies on `str::trim`: whitespace stripped from both ends; a function of
/// the string alone.
#[verifier::external_body]
pub(crate) fn trim_str(s: &str) -> (r: String)
    ensures
        r@ == trimmed(s@),
{
    String::from(s.trim())
}

/// Whether a character is an ASCII decimal digit.
pub open spec fn is_digit_char(c: char) -> bool {
    48 <= c as int && c as int <= 57
}

/// The numeric value of an ASCII decimal digit.
pub open spec fn digit_val(c: char) -> int {
    c as int - 48
}

pub open spec fn all_digits(s: Seq<char>) -> bool {
    forall|i: int| 0 <= i < s.len() ==> is_digit_char(s[i])
}

/// The value of a sequence of decimal digits, most significant first.
pub open spec fn digits_val(s: Seq<char>) -> int
    decreases s.len(),
{
    if s.len() == 0 {
        0
    } else {
        digits_val(s.drop_last()) * 10 + digit_val(s.last())
    }
}

/// The digits of a signed decimal literal: everything after an optional
/// leading sign.
pub open spec fn int_body(s: Seq<char>) -> Seq<char> {
    if s.len() > 0 && (s[0] == '+' || s[0] == '-') {
        s.drop_first()
    } else {
        s
    }
}

pub open spec fn int_negative(s: Seq<char>) -> bool {
    s.len() > 0 && s[0] == '-'
}

/// Whether a character sequence is a decimal literal in the range of `i64`,
/// in the shape `i64::from_str` accepts: an optional `+` or `-` sign followed
/// by at least one ASCII digit.
pub open spec fn is_i64_literal(s: Seq<char>) -> bool {
    let b = int_body(s);
    &&& b.len() > 0
    &&& all_digits(b)
    &&& (if int_negative(s) {
        digits_val(b) <= 0x8000_0000_0000_0000
    } else {
        digits_val(b) <= 0x7fff_ffff_ffff_ffff
    })
}

/// The value of a decimal literal.
pub open spec fn i64_literal_val(s: Seq<char>) -> int {
    if int_negative(s) {
        -digits_val(int_body(s))
    } else {
        digits_val(int_body(s))
    }
}

proof fn lemma_digits_val_nonneg(s: Seq<char>)
    requires
        all_digits(s),
    ensures
        digits_val(s) >= 0,
    decreases s.len(),
{
    if s.len() > 0 {
        assert(all_digits(s.drop_last()));
        lemma_digits_val_nonneg(s.drop_last());
    }
}

/// A digit string is worth at least any of its prefixes.
proof fn lemma_digits_val_prefix(s: Seq<char>, k: int)
    requires
        all_digits(s),
        0 <= k <= s.len(),
    ensures
        digits_val(s.take(k)) <= digits_val(s),
    decreases s.len() - k,
{
    assert(all_digits(s.take(k)));
    lemma_digits_val_nonneg(s.take(k));
    if k == s.len() {
        assert(s.take(k) =~= s);
    } else {
        lemma_digits_val_prefix(s, k + 1);
        assert(s.take(k + 1).drop_last() =~= s.take(k));
        assert(s.take(k + 1).last() == s[k]);
        assert(digits_val(s.take(k + 1)) == digits_val(s.take(k)) * 10 + digit_val(s[k]));
        assert(digit_val(s[k]) >= 0);
        assert(digits_val(s.take(k)) * 10 >= digits_val(s.take(k)));
    }
}

/// Parse a signed decimal integer exactly as `i64::from_str` does: `None` on
/// an empty body, a non-digit character, or a value outside the `i64` range.
pub fn parse_i64(chars: &[char]) -> (r: Option<i64>)
    ensures
        r is Some <==> is_i64_literal(chars@),
        r is Some ==> r->Some_0 as int == i64_literal_val(chars@),
{
    let n = chars.len();
    let mut idx: usize = 0;
    let mut neg = false;
    if n > 0 && (chars[0] == '+' || chars[0] == '-') {
        neg = chars[0] == '-';
        idx = 1;
    }
    proof {
        assert(chars@.skip(idx as int) =~= int_body(chars@));
        assert(neg == int_negative(chars@));
    }
    if idx == n {
        // no digits at all
        return None;
    }
    let limit: u64 = if neg {
        0x8000_0000_0000_0000
    } else {
        0x7fff_ffff_ffff_ffff
    };
    let ghost body = int_body(chars@);
    let mut acc: u64 = 0;
    let mut i = idx;
    while i < n
        invariant
            idx <= i <= n,
            n == chars@.len(),
            idx == (if body.len() == chars@.len() { 0int } else { 1int }),
            body == int_body(chars@),
            body == chars@.skip(idx as int),
            body.len() == n - idx,
            neg == int_negative(chars@),
            limit == (if neg { 0x8000_0000_0000_0000u64 } else { 0x7fff_ffff_ffff_ffffu64 }),
            all_digits(body.take(i - idx)),
            acc as int == digits_val(body.take(i - idx)),
            acc <= limit,
        decreases n - i,
    {
        let c = chars[i];
        proof {
            assert(body[i - idx] == chars@[i as int]);
        }
        if c < '0' || c > '9' {
            // a non-digit character: the component is not an integer
            proof {
                assert(!is_digit_char(body[i - idx]));
                assert(!all_digits(body));
            }
            return None;
        }
        let d = (c as u32 - 48) as u64;
        let stepped = match acc.checked_mul(10) {
            Some(t) => t.checked_add(d),
            None => None,
        };
        proof {
            assert(body.take(i - idx + 1).drop_last() =~= body.take(i - idx));
            assert(body.take(i - idx + 1).last() == body[i - idx]);
            assert(is_digit_char(body[i - idx]));
            assert forall|j: int| 0 <= j < i - idx + 1 implies is_digit_char(
                #[trigger] body.take(i - idx + 1)[j],
            ) by {
                if j < i - idx {
                    assert(body.take(i - idx + 1)[j] == body.take(i - idx)[j]);
                } else {
                    assert(body.take(i - idx + 1)[j] == body[i - idx]);
                }
            }
            assert(all_digits(body.take(i - idx + 1)));
            assert(digits_val(body.take(i - idx + 1)) == acc as int * 10 + d as int);
        }
        match stepped {
            Some(v) if v <= limit => {
                acc = v;
            },
            _ => {
                // the digits so far already exceed the range of `i64`
                proof {
                    assert(digits_val(body.take(i - idx + 1)) > limit as int);
                    if all_digits(body) {
                        lemma_digits_val_prefix(body, i - idx + 1);
                        assert(digits_val(body) > limit as int);
                    }
                    assert(!is_i64_literal(chars@));
                }
                return None;
            },
        }
        i += 1;
    }
    proof {
        assert(body.take(n - idx) =~= body);
        assert(is_i64_literal(chars@));
    }
    if neg {
        if acc == 0x8000_0000_0000_0000 {
            Some(i64::MIN)
        } else {
            Some(-(acc as i64))
        }
    } else {
        Some(acc as i64)
    }
}

} // verus!
