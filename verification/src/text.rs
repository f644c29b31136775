//! Small verified operations on text that the rest of the library is built from.
use vstd::prelude::*;
use vstd::string::*;
use vstd::utf8::*;

verus! {

/// The character that stands for the decimal digit `d`.
pub open spec fn digit(d: nat) -> char {
    (48 + d) as char
}

/// The decimal notation of `n`, without leading zeros.
pub open spec fn decimal(n: nat) -> Seq<char>
    decreases n,
{
    if n < 10 {
        seq![digit(n)]
    } else {
        decimal(n / 10).push(digit(n % 10))
    }
}

/// The decimal notation of `n`, padded with a zero to at least two places.
pub open spec fn two_places(n: nat) -> Seq<char> {
    if n < 10 {
        seq!['0', digit(n)]
    } else {
        decimal(n)
    }
}

/// What follows the last `':'` of `s`, or all of `s` where it holds none.
pub open spec fn last_segment(s: Seq<char>) -> Seq<char>
    decreases s.len(),
{
    if s.len() == 0 || s.last() == ':' {
        Seq::empty()
    } else {
        last_segment(s.drop_last()).push(s.last())
    }
}

/// The number of bytes that `s` takes in UTF-8.
pub open spec fn byte_len(s: Seq<char>) -> nat {
    encode_utf8(s).len()
}

/// The last segment of `s` holds no `':'`, it ends `s`, and a `':'` stands before it
/// unless it is all of `s`.
pub proof fn law_last_segment(s: Seq<char>)
    ensures
        last_segment(s).len() <= s.len(),
        last_segment(s) == s.skip(s.len() - last_segment(s).len()),
        !last_segment(s).contains(':'),
        last_segment(s).len() < s.len() ==> s[s.len() - last_segment(s).len() - 1] == ':',
    decreases s.len(),
{
    if s.len() == 0 || s.last() == ':' {
        assert(s.skip(s.len() as int) =~= Seq::<char>::empty());
    } else {
        law_last_segment(s.drop_last());
        let shorter = last_segment(s.drop_last());
        assert(s.skip(s.len() - last_segment(s).len()) =~= shorter.push(s.last()));
        assert(!shorter.push(s.last()).contains(':')) by {
            if shorter.push(s.last()).contains(':') {
                let i = choose|i: int|
                    0 <= i < shorter.push(s.last()).len() && shorter.push(s.last())[i] == ':';
                if i < shorter.len() {
                    assert(shorter[i] == ':');
                }
            }
        }
    }
}

/// One text starts with another exactly where its bytes start with the other's bytes.
proof fn lemma_prefix_of_bytes(prefix: Seq<char>, s: Seq<char>)
    ensures
        encode_utf8(prefix).is_prefix_of(encode_utf8(s)) <==> prefix.is_prefix_of(s),
    decreases prefix.len(),
{
    if prefix.len() > 0 {
        let p_bytes = encode_utf8(prefix);
        let s_bytes = encode_utf8(s);
        let p_rest = encode_utf8(prefix.drop_first());
        encode_utf8_first_scalar(prefix);
        if s.len() == 0 {
            assert(p_bytes.len() > 0);
        } else {
            let s_rest = encode_utf8(s.drop_first());
            let p_first = encode_scalar(prefix[0] as u32);
            let s_first = encode_scalar(s[0] as u32);
            encode_utf8_first_scalar(s);
            lemma_prefix_of_bytes(prefix.drop_first(), s.drop_first());
            if p_bytes.is_prefix_of(s_bytes) {
                lemma_first_scalar_of_prefix(p_bytes, s_bytes);
                char_u32_cast(prefix[0], prefix[0] as u32);
                char_u32_cast(s[0], s[0] as u32);
                assert(prefix[0] == s[0]);
                assert(p_rest.is_prefix_of(s_rest)) by {
                    assert forall|i: int| 0 <= i < p_rest.len() implies p_rest[i] == s_rest[i] by {
                        assert(p_bytes[i + p_first.len()] == s_bytes[i + p_first.len()]);
                    }
                }
                assert(prefix =~= s.subrange(0, prefix.len() as int)) by {
                    assert forall|i: int| 0 < i < prefix.len() implies prefix[i] == s[i] by {
                        assert(prefix.drop_first()[i - 1] == s.drop_first()[i - 1]);
                    }
                }
            }
            if prefix.is_prefix_of(s) {
                assert(prefix[0] == s[0]);
                assert(prefix.drop_first().is_prefix_of(s.drop_first())) by {
                    assert forall|i: int| 0 <= i < prefix.len() - 1 implies
                        prefix.drop_first()[i] == s.drop_first()[i] by {
                        assert(prefix[i + 1] == s[i + 1]);
                    }
                }
                assert(p_bytes =~= s_bytes.subrange(0, p_bytes.len() as int)) by {
                    assert forall|i: int| 0 <= i < p_bytes.len() implies p_bytes[i]
                        == s_bytes[i] by {
                        if i >= p_first.len() {
                            assert(p_rest[i - p_first.len()] == s_rest[i - p_first.len()]);
                        }
                    }
                }
            }
        }
    }
}

/// The first scalar of a sequence of bytes is that of any of its extensions.
proof fn lemma_first_scalar_of_prefix(a: Seq<u8>, b: Seq<u8>)
    requires
        a.len() > 0,
        a.is_prefix_of(b),
        valid_first_scalar(a),
    ensures
        decode_first_scalar(a) == decode_first_scalar(b),
{
    assert forall|i: int| 0 <= i < a.len() implies a[i] == b[i] by {
        assert(a[i] == b.subrange(0, a.len() as int)[i]);
    }
}

/// Compares two texts.
pub fn same_text(a: &str, b: &str) -> (r: bool)
    ensures
        r == (a@ == b@),
{
    proof {
        encode_utf8_decode_utf8(a@);
        encode_utf8_decode_utf8(b@);
    }
    let x = a.as_bytes();
    let y = b.as_bytes();
    if x.len() != y.len() {
        return false;
    }
    for i in 0..x.len()
        invariant
            x@ == encode_utf8(a@),
            y@ == encode_utf8(b@),
            x.len() == y.len(),
            forall|j: int| 0 <= j < i ==> x@[j] == y@[j],
    {
        if x[i] != y[i] {
            return false;
        }
    }
    assert(x@ =~= y@);
    true
}

/// Whether `s` starts with `prefix`.
pub fn starts_with(s: &str, prefix: &str) -> (r: bool)
    ensures
        r == prefix@.is_prefix_of(s@),
{
    proof {
        lemma_prefix_of_bytes(prefix@, s@);
    }
    let x = prefix.as_bytes();
    let y = s.as_bytes();
    if x.len() > y.len() {
        return false;
    }
    for i in 0..x.len()
        invariant
            x@ == encode_utf8(prefix@),
            y@ == encode_utf8(s@),
            x.len() <= y.len(),
            encode_utf8(prefix@).is_prefix_of(encode_utf8(s@)) <==> prefix@.is_prefix_of(s@),
            forall|j: int| 0 <= j < i ==> x@[j] == y@[j],
    {
        if x[i] != y[i] {
            proof {
                if x@.is_prefix_of(y@) {
                    assert(x@[i as int] == y@.subrange(0, x@.len() as int)[i as int]);
                }
            }
            return false;
        }
    }
    assert(x@ =~= y@.subrange(0, x@.len() as int));
    true
}

/// The number of bytes that `s` takes.
pub fn text_bytes(s: &str) -> (r: usize)
    ensures
        r == byte_len(s@),
{
    s.as_bytes().len()
}

/// The digit `d` as text.
fn digit_text(d: u64) -> (r: &'static str)
    requires
        d < 10,
    ensures
        r@ == seq![digit(d as nat)],
{
    proof {
        reveal_strlit("0");
        reveal_strlit("1");
        reveal_strlit("2");
        reveal_strlit("3");
        reveal_strlit("4");
        reveal_strlit("5");
        reveal_strlit("6");
        reveal_strlit("7");
        reveal_strlit("8");
        reveal_strlit("9");
    }
    let r = match d {
        0 => "0",
        1 => "1",
        2 => "2",
        3 => "3",
        4 => "4",
        5 => "5",
        6 => "6",
        7 => "7",
        8 => "8",
        _ => "9",
    };
    assert(r@ =~= seq![digit(d as nat)]);
    r
}

/// Writes `n` in decimal notation.
pub fn decimal_text(n: u64) -> (r: String)
    ensures
        r@ == decimal(n as nat),
    decreases n,
{
    if n < 10 {
        digit_text(n).to_string()
    } else {
        let mut r = decimal_text(n / 10);
        r.append(digit_text(n % 10));
        r
    }
}

/// Writes `n` in decimal notation, with a leading zero below ten.
pub fn two_places_text(n: u64) -> (r: String)
    ensures
        r@ == two_places(n as nat),
{
    if n < 10 {
        proof {
            reveal_strlit("0");
        }
        let mut r = "0".to_string();
        r.append(digit_text(n));
        assert(r@ =~= seq!['0', digit(n as nat)]);
        r
    } else {
        decimal_text(n)
    }
}

/// What follows the last `':'` of `s`, or all of `s` where it holds none.
pub fn last_segment_text(s: &str) -> (r: String)
    ensures
        r@ == last_segment(s@),
{
    let n = s.unicode_len();
    let mut at: usize = n;
    proof {
        assert(s@.take(n as int) =~= s@);
        assert(s@.skip(n as int) =~= Seq::<char>::empty());
        assert(last_segment(s@) =~= last_segment(s@.take(at as int)) + s@.skip(at as int));
    }
    while at > 0
        invariant
            n == s@.len(),
            at <= n,
            last_segment(s@) == last_segment(s@.take(at as int)) + s@.skip(at as int),
        decreases at,
    {
        let c = s.get_char(at - 1);
        let ghost head = s@.take(at as int);
        assert(head.last() == c);
        if c == ':' {
            assert(last_segment(s@) =~= s@.skip(at as int));
            let r = s.substring_char(at, n);
            assert(r@ =~= s@.skip(at as int));
            return r.to_string();
        }
        assert(head.drop_last() =~= s@.take(at - 1));
        at = at - 1;
        assert(last_segment(s@) =~= last_segment(s@.take(at as int)) + s@.skip(at as int));
    }
    assert(last_segment(s@.take(0)) =~= Seq::<char>::empty());
    assert(s@.skip(0) =~= s@);
    assert(last_segment(s@) =~= s@);
    s.to_string()
}

} // verus!
