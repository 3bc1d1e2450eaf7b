//! Byte-level text helpers: character classes, the fixed words of the
//! document and formula languages, decimal numerals, and small utilities
//! over byte vectors.
//!
//! All source text, token literals, and scalar results are byte strings.

use vstd::prelude::*;
use vstd::seq_lib::*;

verus! {

/// The double-quote character.
pub open spec fn quote_byte() -> u8 {
    '"' as u8
}

pub open spec fn is_digit(c: u8) -> bool {
    '0' as u8 <= c <= '9' as u8
}

pub open spec fn is_upper(c: u8) -> bool {
    'A' as u8 <= c <= 'Z' as u8
}

pub open spec fn is_lower(c: u8) -> bool {
    'a' as u8 <= c <= 'z' as u8
}

pub open spec fn is_alpha(c: u8) -> bool {
    is_upper(c) || is_lower(c)
}

pub open spec fn is_alnum(c: u8) -> bool {
    is_alpha(c) || is_digit(c)
}

/// ASCII upper-casing of one byte; other bytes are left unchanged.
pub open spec fn to_upper(c: u8) -> u8 {
    if is_lower(c) {
        (c - 32) as u8
    } else {
        c
    }
}

/// ASCII upper-casing of a whole byte string.
pub open spec fn upper_seq(s: Seq<u8>) -> Seq<u8> {
    s.map(|_i: int, c: u8| to_upper(c))
}

pub open spec fn all_digits(s: Seq<u8>) -> bool {
    forall|i: int| 0 <= i < s.len() ==> is_digit(#[trigger] s[i])
}

/// The numeric value of a digit string, most significant digit first.
pub open spec fn num_val(s: Seq<u8>) -> int
    decreases s.len(),
{
    if s.len() == 0 {
        0
    } else {
        num_val(s.take(s.len() - 1)) * 10 + (s.last() - '0' as u8)
    }
}

/// A byte string is a numeric scalar when it is a nonempty digit run whose
/// value fits the numeric domain of the evaluator.
pub open spec fn is_num(s: Seq<u8>) -> bool {
    s.len() > 0 && all_digits(s) && num_val(s) <= u64::MAX
}

/// Canonical decimal rendering of a natural number: no sign, no leading
/// zeros (except for zero itself).
pub open spec fn render_nat(n: nat) -> Seq<u8>
    decreases n,
{
    if n < 10 {
        seq![('0' as u8 + n) as u8]
    } else {
        render_nat(n / 10).push(('0' as u8 + n % 10) as u8)
    }
}

pub proof fn lemma_num_val_nonneg(s: Seq<u8>)
    requires
        all_digits(s),
    ensures
        num_val(s) >= 0,
    decreases s.len(),
{
    if s.len() > 0 {
        assert(all_digits(s.take(s.len() - 1)));
        lemma_num_val_nonneg(s.take(s.len() - 1));
    }
}

/// Digit prefixes never exceed the value of the whole digit string.
pub proof fn lemma_num_val_prefix(s: Seq<u8>, j: int)
    requires
        all_digits(s),
        0 <= j <= s.len(),
    ensures
        num_val(s.take(j)) <= num_val(s),
    decreases s.len(),
{
    if j == s.len() {
        assert(s.take(j) =~= s);
    } else {
        let head = s.take(s.len() - 1);
        assert(all_digits(head));
        lemma_num_val_nonneg(head);
        lemma_num_val_prefix(head, j);
        assert(head.take(j) =~= s.take(j));
        assert(num_val(s) == num_val(head) * 10 + (s.last() - '0' as u8));
    }
}

/// Parses a decimal numeral. Returns the value exactly when the input is a
/// numeric scalar; otherwise reports failure.
pub fn parse_num(s: &Vec<u8>) -> (r: Option<u64>)
    ensures
        match r {
            Some(v) => is_num(s@) && v as int == num_val(s@),
            None => !is_num(s@),
        },
{
    if s.len() == 0 {
        return None;
    }
    let mut acc: u64 = 0;
    let mut i: usize = 0;
    while i < s.len()
        invariant
            0 <= i <= s.len(),
            all_digits(s@.take(i as int)),
            acc as int == num_val(s@.take(i as int)),
        decreases s.len() - i,
    {
        let c = s[i];
        if c < '0' as u8 || c > '9' as u8 {
            assert(!is_digit(s@[i as int]));
            return None;
        }
        let d = (c - '0' as u8) as u64;
        proof {
            assert(s@.take(i + 1).take(i as int) =~= s@.take(i as int));
            assert(s@.take(i + 1).last() == s@[i as int]);
        }
        let step = acc.checked_mul(10);
        let next = match step {
            Some(m) => m.checked_add(d),
            None => None,
        };
        match next {
            Some(v) => {
                acc = v;
            }
            None => {
                proof {
                    assert(num_val(s@.take(i + 1)) == acc * 10 + d);
                    if all_digits(s@) {
                        lemma_num_val_prefix(s@, i + 1);
                    }
                }
                return None;
            }
        }
        i = i + 1;
    }
    proof {
        assert(s@.take(s@.len() as int) =~= s@);
    }
    Some(acc)
}

/// Renders a number in canonical decimal form.
pub fn render_num(n: u64) -> (s: Vec<u8>)
    ensures
        s@ == render_nat(n as nat),
    decreases n,
{
    if n < 10 {
        let v: Vec<u8> = vec![('0' as u8 + n as u8) as u8];
        proof {
            assert(v@ =~= render_nat(n as nat));
        }
        v
    } else {
        let mut v = render_num(n / 10);
        v.push('0' as u8 + (n % 10) as u8);
        v
    }
}

/// Copies a range of a byte vector.
pub fn subvec(v: &Vec<u8>, from: usize, to: usize) -> (r: Vec<u8>)
    requires
        from <= to <= v@.len(),
    ensures
        r@ == v@.subrange(from as int, to as int),
{
    let mut r: Vec<u8> = Vec::new();
    let mut i: usize = from;
    while i < to
        invariant
            from <= i <= to <= v@.len(),
            r@ == v@.subrange(from as int, i as int),
        decreases to - i,
    {
        r.push(v[i]);
        proof {
            assert(r@ =~= v@.subrange(from as int, i + 1));
        }
        i = i + 1;
    }
    r
}

/// Copies a whole byte vector.
pub fn copy_bytes(v: &Vec<u8>) -> (r: Vec<u8>)
    ensures
        r@ == v@,
{
    let r = subvec(v, 0, v.len());
    proof {
        assert(v@.subrange(0, v@.len() as int) =~= v@);
    }
    r
}

/// The byte-string views of a sequence of byte vectors.
pub open spec fn views_of(v: Seq<Vec<u8>>) -> Seq<Seq<u8>> {
    Seq::new(v.len(), |i: int| v[i]@)
}

/// Appends one byte vector to another.
pub fn append_bytes(dst: &mut Vec<u8>, src: &Vec<u8>)
    ensures
        final(dst)@ == old(dst)@ + src@,
{
    let mut i: usize = 0;
    while i < src.len()
        invariant
            0 <= i <= src@.len(),
            dst@ == old(dst)@ + src@.take(i as int),
        decreases src.len() - i,
    {
        dst.push(src[i]);
        proof {
            assert(old(dst)@ + src@.take(i + 1) =~= (old(dst)@ + src@.take(i as int)).push(
                src@[i as int],
            ));
        }
        i = i + 1;
    }
    proof {
        assert(src@.take(src@.len() as int) =~= src@);
    }
}

/// Appends copies of all byte vectors of `src` to `dst`.
pub fn append_vecs(dst: &mut Vec<Vec<u8>>, src: &Vec<Vec<u8>>)
    ensures
        views_of(final(dst)@) == views_of(old(dst)@) + views_of(src@),
{
    let mut i: usize = 0;
    proof {
        assert(views_of(dst@) =~= views_of(old(dst)@) + views_of(src@).take(0));
    }
    while i < src.len()
        invariant
            0 <= i <= src@.len(),
            views_of(dst@) == views_of(old(dst)@) + views_of(src@).take(i as int),
        decreases src.len() - i,
    {
        let c = copy_bytes(&src[i]);
        let ghost pre = dst@;
        let ghost cvec = c;
        dst.push(c);
        proof {
            assert(dst@ == pre.push(cvec));
            assert(views_of(pre.push(cvec)) =~= views_of(pre).push(cvec@));
            assert(views_of(src@).take(i + 1) =~= views_of(src@).take(i as int).push(
                src@[i as int]@,
            ));
            assert(views_of(dst@) =~= views_of(old(dst)@) + views_of(src@).take(i + 1));
        }
        i = i + 1;
    }
    proof {
        assert(views_of(src@).take(src@.len() as int) =~= views_of(src@));
    }
}

/// Structural equality of two byte vectors.
pub fn bytes_eq(a: &Vec<u8>, b: &Vec<u8>) -> (r: bool)
    ensures
        r == (a@ == b@),
{
    if a.len() != b.len() {
        return false;
    }
    let mut i: usize = 0;
    while i < a.len()
        invariant
            0 <= i <= a@.len(),
            a@.len() == b@.len(),
            forall|k: int| 0 <= k < i ==> a@[k] == b@[k],
        decreases a.len() - i,
    {
        if a[i] != b[i] {
            return false;
        }
        i = i + 1;
    }
    proof {
        assert(a@ =~= b@);
    }
    true
}

/// Case-insensitive match of a byte vector against an upper-case word.
pub fn matches_word(a: &Vec<u8>, word: &Vec<u8>) -> (r: bool)
    ensures
        r == (upper_seq(a@) == word@),
{
    if a.len() != word.len() {
        proof {
            assert(upper_seq(a@).len() == a@.len());
        }
        return false;
    }
    let mut i: usize = 0;
    while i < a.len()
        invariant
            0 <= i <= a@.len(),
            a@.len() == word@.len(),
            forall|k: int| 0 <= k < i ==> to_upper(a@[k]) == word@[k],
        decreases a.len() - i,
    {
        let c = a[i];
        let u = if c >= 'a' as u8 && c <= 'z' as u8 {
            c - 32
        } else {
            c
        };
        if u != word[i] {
            proof {
                assert(upper_seq(a@)[i as int] == to_upper(a@[i as int]));
            }
            return false;
        }
        i = i + 1;
    }
    proof {
        assert(upper_seq(a@) =~= word@);
    }
    true
}

} // verus!
