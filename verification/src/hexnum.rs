use vstd::prelude::*;
use vstd::string::StringExecFns;

verus! {

/// Value of a lowercase hexadecimal digit character, or 16 for any other
/// character.
pub open spec fn hex_char_val(c: char) -> int {
    if ('0' as int) <= (c as int) <= ('9' as int) {
        (c as int) - ('0' as int)
    } else if ('a' as int) <= (c as int) <= ('f' as int) {
        10 + (c as int) - ('a' as int)
    } else {
        16
    }
}

pub open spec fn is_hex_char(c: char) -> bool {
    hex_char_val(c) < 16
}

/// The lowercase hexadecimal digit character of a value below 16.
pub open spec fn hex_digit_char(d: int) -> char {
    if d == 0 {
        '0'
    } else if d == 1 {
        '1'
    } else if d == 2 {
        '2'
    } else if d == 3 {
        '3'
    } else if d == 4 {
        '4'
    } else if d == 5 {
        '5'
    } else if d == 6 {
        '6'
    } else if d == 7 {
        '7'
    } else if d == 8 {
        '8'
    } else if d == 9 {
        '9'
    } else if d == 10 {
        'a'
    } else if d == 11 {
        'b'
    } else if d == 12 {
        'c'
    } else if d == 13 {
        'd'
    } else if d == 14 {
        'e'
    } else {
        'f'
    }
}

pub open spec fn pow16(n: nat) -> int
    decreases n,
{
    if n == 0 {
        1
    } else {
        16 * pow16((n - 1) as nat)
    }
}

/// Big-endian rendering of `v % 16^n` as `n` lowercase hexadecimal
/// characters.
pub open spec fn spec_hex_rec(v: int, n: nat) -> Seq<char>
    decreases n,
{
    if n == 0 {
        Seq::empty()
    } else {
        spec_hex_rec(v / 16, (n - 1) as nat).push(hex_digit_char(v % 16))
    }
}

/// Sixteen-character lowercase hexadecimal rendering of a 64-bit value.
pub open spec fn spec_hex16(v: u64) -> Seq<char> {
    spec_hex_rec(v as int, 16)
}

pub open spec fn all_hex_chars(s: Seq<char>) -> bool {
    forall|i: int| 0 <= i < s.len() ==> is_hex_char(#[trigger] s[i])
}

/// Value of a big-endian hexadecimal digit string.
pub open spec fn spec_hex_val(s: Seq<char>) -> int
    decreases s.len(),
{
    if s.len() == 0 {
        0
    } else {
        spec_hex_val(s.drop_last()) * 16 + hex_char_val(s.last())
    }
}

/// Reading sixteen hexadecimal characters at `p`: the value and the
/// position just past them, or nothing if they are absent or not all
/// hexadecimal.
pub open spec fn spec_parse_hex16(s: Seq<char>, p: int) -> Option<(u64, int)> {
    if p + 16 <= s.len() && all_hex_chars(s.subrange(p, p + 16)) {
        Option::Some((spec_hex_val(s.subrange(p, p + 16)) as u64, p + 16))
    } else {
        Option::None
    }
}

pub proof fn lemma_pow16_pos(n: nat)
    ensures
        pow16(n) >= 1,
    decreases n,
{
    if n > 0 {
        lemma_pow16_pos((n - 1) as nat);
    }
}

pub proof fn lemma_pow16_mono(m: nat, n: nat)
    requires
        m <= n,
    ensures
        pow16(m) <= pow16(n),
    decreases n,
{
    if m < n {
        lemma_pow16_mono(m, (n - 1) as nat);
        lemma_pow16_pos((n - 1) as nat);
    }
}

pub proof fn lemma_hex_rec_props(v: int, n: nat)
    requires
        0 <= v < pow16(n),
    ensures
        spec_hex_rec(v, n).len() == n,
        all_hex_chars(spec_hex_rec(v, n)),
        spec_hex_val(spec_hex_rec(v, n)) == v,
    decreases n,
{
    if n == 0 {
        assert(spec_hex_rec(v, n) =~= Seq::<char>::empty());
    } else {
        let d = v % 16;
        let rest = v / 16;
        lemma_pow16_pos((n - 1) as nat);
        assert(0 <= rest < pow16((n - 1) as nat)) by (nonlinear_arith)
            requires
                0 <= v < 16 * pow16((n - 1) as nat),
                rest == v / 16,
                pow16((n - 1) as nat) >= 1,
        ;
        lemma_hex_rec_props(rest, (n - 1) as nat);
        let prefix = spec_hex_rec(rest, (n - 1) as nat);
        let whole = spec_hex_rec(v, n);
        assert(whole == prefix.push(hex_digit_char(d)));
        assert(whole.drop_last() =~= prefix);
        assert(whole.last() == hex_digit_char(d));
        assert(hex_char_val(hex_digit_char(d)) == d);
        assert(forall|i: int|
            0 <= i < whole.len() ==> is_hex_char(#[trigger] whole[i])) by {
            assert(forall|i: int|
                0 <= i < prefix.len() ==> whole[i] == #[trigger] prefix[i]);
        }
        assert(spec_hex_val(whole) == spec_hex_val(prefix) * 16 + d);
        assert(spec_hex_val(prefix) * 16 + d == v) by (nonlinear_arith)
            requires
                spec_hex_val(prefix) == v / 16,
                d == v % 16,
                0 <= v,
        ;
    }
}

pub proof fn lemma_hex_val_bound(s: Seq<char>)
    requires
        all_hex_chars(s),
    ensures
        0 <= spec_hex_val(s) < pow16(s.len()),
    decreases s.len(),
{
    if s.len() > 0 {
        let prefix = s.drop_last();
        assert(all_hex_chars(prefix)) by {
            assert(forall|i: int|
                0 <= i < prefix.len() ==> #[trigger] prefix[i] == s[i]);
        }
        lemma_hex_val_bound(prefix);
        let d = hex_char_val(s.last());
        assert(0 <= d < 16);
        assert(0 <= spec_hex_val(prefix) * 16 + d < 16 * pow16(prefix.len())) by (
        nonlinear_arith)
            requires
                0 <= spec_hex_val(prefix) < pow16(prefix.len()),
                0 <= d < 16,
        ;
    }
}

pub proof fn lemma_pow16_16_value()
    ensures
        pow16(16) == 0x1_0000_0000_0000_0000,
{
    reveal_with_fuel(pow16, 17);
}

/// Rendering a 64-bit value and reading the sixteen characters back gives
/// the value again.
pub proof fn lemma_hex16_roundtrip(v: u64)
    ensures
        spec_hex16(v).len() == 16,
        all_hex_chars(spec_hex16(v)),
        spec_hex_val(spec_hex16(v)) == v,
{
    lemma_pow16_16_value();
    lemma_hex_rec_props(v as int, 16);
}

/// Reading at a position that holds the rendering of `v` yields `v` and
/// steps past it, whatever follows.
pub proof fn lemma_parse_hex16_of_ser(s: Seq<char>, p: int, v: u64)
    requires
        0 <= p,
        p + 16 <= s.len(),
        s.subrange(p, p + 16) == spec_hex16(v),
    ensures
        spec_parse_hex16(s, p) == Option::Some((v, p + 16)),
{
    lemma_hex16_roundtrip(v);
}

fn hex_digit_str(d: u64) -> (r: &'static str)
    requires
        d < 16,
    ensures
        r@ == seq![hex_digit_char(d as int)],
{
    let r: &'static str = if d == 0 {
        "0"
    } else if d == 1 {
        "1"
    } else if d == 2 {
        "2"
    } else if d == 3 {
        "3"
    } else if d == 4 {
        "4"
    } else if d == 5 {
        "5"
    } else if d == 6 {
        "6"
    } else if d == 7 {
        "7"
    } else if d == 8 {
        "8"
    } else if d == 9 {
        "9"
    } else if d == 10 {
        "a"
    } else if d == 11 {
        "b"
    } else if d == 12 {
        "c"
    } else if d == 13 {
        "d"
    } else if d == 14 {
        "e"
    } else {
        "f"
    };
    proof {
        reveal_strlit("0");
        reveal_strlit("1");
        reveal_strlit("2");
        reveal_strlit("3");
        reveal_strlit("4");
        reveal_strlit("5");
        reveal_strlit("6");
        reveal_strlit("7");
        reveal_strlit("8");
        reveal_strlit("9");
        reveal_strlit("a");
        reveal_strlit("b");
        reveal_strlit("c");
        reveal_strlit("d");
        reveal_strlit("e");
        reveal_strlit("f");
        assert(r@ =~= seq![hex_digit_char(d as int)]);
    }
    r
}

fn hex_rec(v: u64, n: usize) -> (r: String)
    ensures
        r@ == spec_hex_rec(v as int, n as nat),
    decreases n,
{
    if n == 0 {
        let r = String::new();
        proof {
            assert(r@ =~= spec_hex_rec(v as int, 0));
        }
        r
    } else {
        let prefix = hex_rec(v / 16, n - 1);
        let d = hex_digit_str(v % 16);
        let r = prefix.concat(d);
        proof {
            assert(r@ =~= spec_hex_rec(v as int, n as nat));
        }
        r
    }
}

/// Writes a 64-bit value as sixteen lowercase hexadecimal characters.
pub fn hex16(v: u64) -> (r: String)
    ensures
        r@ == spec_hex16(v),
{
    hex_rec(v, 16)
}

fn hex_char_digit(c: char) -> (r: Option<u64>)
    ensures
        r is Some <==> is_hex_char(c),
        r is Some ==> r->0 == hex_char_val(c),
{
    let u = c as u32;
    if 48 <= u && u <= 57 {
        Option::Some((u - 48) as u64)
    } else if 97 <= u && u <= 102 {
        Option::Some((u - 87) as u64)
    } else {
        Option::None
    }
}

/// Reads sixteen hexadecimal characters at `p`, most significant first.
pub fn parse_hex16(cs: &Vec<char>, p: usize) -> (r: Option<(u64, usize)>)
    requires
        p <= cs.len(),
    ensures
        r is Some <==> spec_parse_hex16(cs@, p as int) is Some,
        r is Some ==> ({
            let (v, q) = spec_parse_hex16(cs@, p as int)->0;
            let (rv, rq) = r->0;
            rv == v && rq == q
        }),
{
    if cs.len() - p < 16 {
        return Option::None;
    }
    let ghost whole = cs@.subrange(p as int, p as int + 16);
    let mut acc: u64 = 0;
    let mut i: usize = 0;
    while i < 16
        invariant
            p + 16 <= cs.len(),
            i <= 16,
            whole == cs@.subrange(p as int, p as int + 16),
            all_hex_chars(cs@.subrange(p as int, p as int + i)),
            acc == spec_hex_val(cs@.subrange(p as int, p as int + i)),
            acc < pow16(i as nat),
        decreases 16 - i,
    {
        let c = cs[p + i];
        let ghost done = cs@.subrange(p as int, p as int + i);
        match hex_char_digit(c) {
            Option::Some(d) => {
                let ghost next = cs@.subrange(p as int, p as int + i + 1);
                proof {
                    assert(next.drop_last() =~= done);
                    assert(next.last() == cs@[p + i]);
                    lemma_pow16_mono((i + 1) as nat, 16);
                    lemma_pow16_16_value();
                    assert(acc * 16 + d < pow16((i + 1) as nat)) by (nonlinear_arith)
                        requires
                            acc < pow16(i as nat),
                            d < 16,
                            pow16((i + 1) as nat) == 16 * pow16(i as nat),
                    ;
                }
                acc = acc * 16 + d;
            },
            Option::None => {
                proof {
                    assert(whole[i as int] == cs@[p + i]);
                    assert(!all_hex_chars(whole));
                }
                return Option::None;
            },
        }
        i += 1;
    }
    proof {
        assert(cs@.subrange(p as int, p as int + 16) == whole);
    }
    Option::Some((acc, p + 16))
}

} // verus!
