//! Names of the labels that mark reflective call sites.
use vstd::prelude::*;

verus! {

/// The upper-case hexadecimal digit of `d`.
pub open spec fn hex_char(d: nat) -> char {
    "0123456789ABCDEF"@[d as int]
}

/// `n` in upper-case hexadecimal, padded with zeros to at least `w` digits.
pub open spec fn hex_pad(n: nat, w: nat) -> Seq<char>
    decreases n + w,
{
    if n == 0 && w == 0 {
        Seq::empty()
    } else {
        hex_pad(n / 16, if w > 0 {
            (w - 1) as nat
        } else {
            0
        }) + seq![hex_char(n % 16)]
    }
}

/// The label of the call site at `addr`: `THESEUS_ADDR_` and the address in eight or more
/// upper-case hexadecimal digits.
pub open spec fn addr_label_of(addr: nat) -> Seq<char> {
    "THESEUS_ADDR_"@ + hex_pad(addr, 8)
}

/// Appends `n` in upper-case hexadecimal, padded with zeros to at least `w` digits.
pub fn push_hex_digits(n: usize, w: usize, out: &mut String)
    ensures
        final(out)@ == old(out)@ + hex_pad(n as nat, w as nat),
    decreases n + w,
{
    if n == 0 && w == 0 {
        assert(old(out)@ + hex_pad(n as nat, w as nat) =~= old(out)@);
        return ;
    }
    let w2: usize = if w > 0 {
        w - 1
    } else {
        0
    };
    push_hex_digits(n / 16, w2, out);
    let digits = "0123456789ABCDEF";
    proof {
        reveal_strlit("0123456789ABCDEF");
    }
    assert(digits@.len() == 16);
    let d = n % 16;
    if digits.is_ascii() {
        let piece = digits.substring_ascii(d, d + 1);
        out.append(piece);
        assert(piece@ =~= seq![hex_char(d as nat)]);
    } else {
        assert(false);
    }
    assert(final(out)@ =~= old(out)@ + hex_pad(n as nat, w as nat));
}

/// The label of the call site at `addr`, as the labelling of the decoded code names it.
pub fn addr_label(addr: usize) -> (r: String)
    ensures
        r@ == addr_label_of(addr as nat),
{
    let mut s = String::from_str("THESEUS_ADDR_");
    push_hex_digits(addr, 8, &mut s);
    s
}

/// `n` in decimal.
pub open spec fn dec(n: nat) -> Seq<char>
    decreases n,
{
    if n < 10 {
        seq![(n + 48) as char]
    } else {
        dec(n / 10) + seq![((n % 10) + 48) as char]
    }
}

/// Appends `n` in decimal.
pub fn push_dec(n: usize, out: &mut String)
    ensures
        final(out)@ == old(out)@ + dec(n as nat),
    decreases n,
{
    let digits = "0123456789";
    proof {
        reveal_strlit("0123456789");
    }
    if n >= 10 {
        push_dec(n / 10, out);
    }
    let d = n % 10;
    if digits.is_ascii() {
        let piece = digits.substring_ascii(d, d + 1);
        out.append(piece);
        assert(piece@ =~= seq![((d as nat) + 48) as char]);
    } else {
        assert(false);
    }
    assert(final(out)@ =~= old(out)@ + dec(n as nat));
}

proof fn lemma_dec_len(n: nat)
    ensures
        dec(n).len() >= 1,
        n >= 10 ==> dec(n).len() >= 2,
    decreases n,
{
    if n >= 10 {
        lemma_dec_len(n / 10);
    }
}

/// Different numbers are written differently.
pub proof fn lemma_dec_injective(a: nat, b: nat)
    requires
        dec(a) == dec(b),
    ensures
        a == b,
    decreases a,
{
    lemma_dec_len(a);
    lemma_dec_len(b);
    if a >= 10 && b >= 10 {
        let ca = ((a % 10) + 48) as char;
        let cb = ((b % 10) + 48) as char;
        assert(dec(a) == dec(a / 10) + seq![ca]);
        assert(dec(b) == dec(b / 10) + seq![cb]);
        assert(dec(a).drop_last() =~= dec(a / 10));
        assert(dec(b).drop_last() =~= dec(b / 10));
        lemma_dec_injective(a / 10, b / 10);
        assert(dec(a).last() == ca);
        assert(dec(b).last() == cb);
        assert(a % 10 == b % 10);
        assert(a == 10 * (a / 10) + a % 10);
        assert(b == 10 * (b / 10) + b % 10);
    } else if a < 10 && b < 10 {
        assert(dec(a) == seq![((a + 48) as char)]);
        assert(dec(b) == seq![((b + 48) as char)]);
        let sa = seq![((a + 48) as char)];
        let sb = seq![((b + 48) as char)];
        assert(sa[0] == ((a + 48) as char));
        assert(sb[0] == ((b + 48) as char));
        assert(sa[0] == sb[0]);
    } else {
        assert(dec(a).len() != dec(b).len());
    }
}

/// `s` without its `<` and `>` characters.
pub open spec fn strip_angles(s: Seq<char>) -> Seq<char>
    decreases s.len(),
{
    if s.len() == 0 {
        s
    } else if s.last() == '<' || s.last() == '>' {
        strip_angles(s.drop_last())
    } else {
        strip_angles(s.drop_last()).push(s.last())
    }
}

/// Appends `name` without its `<` and `>` characters.
pub fn push_without_angles(name: &String, out: &mut String)
    ensures
        final(out)@ == old(out)@ + strip_angles(name@),
{
    let s = name.as_str();
    let n = s.unicode_len();
    let mut k: usize = 0;
    while k < n
        invariant
            n == name@.len(),
            s@ == name@,
            k <= n,
            out@ == old(out)@ + strip_angles(name@.take(k as int)),
        decreases n - k,
    {
        let c = s.get_char(k);
        assert(name@.take(k as int + 1).drop_last() =~= name@.take(k as int));
        if c != '<' && c != '>' {
            let piece = s.substring_char(k, k + 1);
            out.append(piece);
            assert(piece@ =~= seq![c]);
        }
        k += 1;
        assert(out@ =~= old(out)@ + strip_angles(name@.take(k as int)));
    }
    assert(name@.take(k as int) =~= name@);
}

/// Appends the text of `name` after its last `/`.
pub fn push_last_component(name: &String, out: &mut String)
    ensures
        final(out)@ == old(out)@ + crate::get_apk::last_component(name@),
{
    let s = name.as_str();
    let n = s.unicode_len();
    let mut start: usize = n;
    assert(name@.take(n as int) =~= name@);
    assert(name@.skip(n as int) =~= Seq::<char>::empty());
    while start > 0 && s.get_char(start - 1) != '/'
        invariant
            start <= n,
            n == name@.len(),
            s@ == name@,
            crate::get_apk::last_component(name@) == crate::get_apk::last_component(
                name@.take(start as int),
            ) + name@.skip(start as int),
        decreases start,
    {
        proof {
            let r = name@.take(start as int);
            assert(r.drop_last() =~= name@.take(start as int - 1));
            assert(name@.skip(start as int - 1) =~= seq![r.last()] + name@.skip(start as int));
        }
        start -= 1;
    }
    proof {
        if start == 0 {
            assert(name@.take(0) =~= Seq::<char>::empty());
        } else {
            assert(name@.take(start as int).last() == '/');
        }
        assert(crate::get_apk::last_component(name@.take(start as int)) =~= Seq::<char>::empty());
    }
    let piece = s.substring_char(start, n);
    assert(piece@ =~= name@.skip(start as int));
    out.append(piece);
}

proof fn lemma_hex_char_injective(a: nat, b: nat)
    requires
        a < 16,
        b < 16,
        hex_char(a) == hex_char(b),
    ensures
        a == b,
{
    reveal_strlit("0123456789ABCDEF");
}

proof fn lemma_hex_pad_nonempty(n: nat, w: nat)
    ensures
        (n > 0 || w > 0) ==> hex_pad(n, w).len() > 0,
        (n == 0 && w == 0) ==> hex_pad(n, w).len() == 0,
{
}

/// Different numbers are written differently in hexadecimal, at the same padding.
pub proof fn lemma_hex_pad_injective(a: nat, b: nat, w: nat)
    requires
        hex_pad(a, w) == hex_pad(b, w),
    ensures
        a == b,
    decreases a + b + w,
{
    lemma_hex_pad_nonempty(a, w);
    lemma_hex_pad_nonempty(b, w);
    if !(a == 0 && w == 0) && !(b == 0 && w == 0) {
        let w2: nat = if w > 0 {
            (w - 1) as nat
        } else {
            0
        };
        let ha = hex_pad(a, w);
        let hb = hex_pad(b, w);
        assert(ha == hex_pad(a / 16, w2) + seq![hex_char(a % 16)]);
        assert(hb == hex_pad(b / 16, w2) + seq![hex_char(b % 16)]);
        assert(ha.drop_last() =~= hex_pad(a / 16, w2));
        assert(hb.drop_last() =~= hex_pad(b / 16, w2));
        assert(ha.last() == hex_char(a % 16));
        assert(hb.last() == hex_char(b % 16));
        lemma_hex_char_injective(a % 16, b % 16);
        lemma_hex_pad_injective(a / 16, b / 16, w2);
        assert(a == 16 * (a / 16) + a % 16);
        assert(b == 16 * (b / 16) + b % 16);
    }
}

} // verus!
