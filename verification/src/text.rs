use vstd::prelude::*;

verus! {

/// The characters of the Unicode `White_Space` property, the set that
/// `char::is_whitespace` recognizes.
pub open spec fn is_space_char(c: char) -> bool {
    ||| c == ' '
    ||| c == '\t'
    ||| c == '\n'
    ||| c == '\u{b}'
    ||| c == '\u{c}'
    ||| c == '\r'
    ||| c == '\u{85}'
    ||| c == '\u{a0}'
    ||| c == '\u{1680}'
    ||| ('\u{2000}' <= c && c <= '\u{200a}')
    ||| c == '\u{2028}'
    ||| c == '\u{2029}'
    ||| c == '\u{202f}'
    ||| c == '\u{205f}'
    ||| c == '\u{3000}'
}

/// Whether `c` is whitespace, in the sense of [`is_space_char`].
pub fn is_space(c: char) -> (r: bool)
    ensures
        r == is_space_char(c),
{
    c == ' ' || c == '\t' || c == '\n' || c == '\u{b}' || c == '\u{c}' || c == '\r'
        || c == '\u{85}' || c == '\u{a0}' || c == '\u{1680}'
        || ('\u{2000}' <= c && c <= '\u{200a}') || c == '\u{2028}' || c == '\u{2029}'
        || c == '\u{202f}' || c == '\u{205f}' || c == '\u{3000}'
}

/// How a single title character is normalized: upper-case ASCII letters are
/// lowered, the path separator `/` becomes `-`, everything else is kept.
pub open spec fn fold_char(c: char) -> char {
    if c == '/' {
        '-'
    } else if 'A' <= c && c <= 'Z' {
        (((c as u8) + 0x20) as char)
    } else {
        c
    }
}

/// Applies [`fold_char`] to one character.
pub fn fold(c: char) -> (r: char)
    ensures
        r == fold_char(c),
{
    if c == '/' {
        '-'
    } else if 'A' <= c && c <= 'Z' {
        (((c as u8) + 0x20) as char)
    } else {
        c
    }
}

/// The decimal digit character for a value below ten.
pub open spec fn dec_digit(d: int) -> char
    recommends
        0 <= d < 10,
{
    (((0x30 + d) as u8) as char)
}

/// The decimal representation of `n`, most significant digit first, with no
/// leading zeros (`0` itself is the single character `'0'`).
pub open spec fn dec_str(n: nat) -> Seq<char>
    decreases n,
{
    if n < 10 {
        seq![dec_digit(n as int)]
    } else {
        dec_str(n / 10).push(dec_digit((n % 10) as int))
    }
}

/// A run of `n` zero characters (empty when `n` is not positive).
pub open spec fn zeros(n: int) -> Seq<char> {
    Seq::new(if n >= 0 { n as nat } else { 0 }, |i: int| '0')
}

/// `s` left-padded with zeros to width `w`; `s` unchanged when already wide enough.
pub open spec fn pad_left(s: Seq<char>, w: int) -> Seq<char> {
    if s.len() >= w {
        s
    } else {
        zeros(w - s.len()) + s
    }
}

/// Relies on `String::push`: appends exactly the given character at the end.
#[verifier::external_body]
pub(crate) fn push_char(s: &mut String, c: char)
    ensures
        final(s)@ == old(s)@.push(c),
{
    s.push(c);
}

/// Appends `n` zero characters to `s`.
pub fn push_zeros(s: &mut String, n: usize)
    ensures
        final(s)@ == old(s)@ + zeros(n as int),
{
    let mut i: usize = 0;
    while i < n
        invariant
            i <= n,
            s@ == old(s)@ + zeros(i as int),
        decreases n - i,
    {
        push_char(s, '0');
        proof {
            assert(zeros(i + 1 as int) =~= zeros(i as int).push('0'));
            assert(old(s)@ + zeros(i + 1 as int) =~= (old(s)@ + zeros(i as int)).push('0'));
        }
        i = i + 1;
    }
    proof {
        assert(s@ =~= old(s)@ + zeros(n as int));
    }
}

/// Appends the characters `v[from..to]` to `s`.
pub fn push_range(s: &mut String, v: &Vec<char>, from: usize, to: usize)
    requires
        from <= to <= v@.len(),
    ensures
        final(s)@ == old(s)@ + v@.subrange(from as int, to as int),
{
    let mut k: usize = from;
    while k < to
        invariant
            from <= k <= to <= v@.len(),
            s@ == old(s)@ + v@.subrange(from as int, k as int),
        decreases to - k,
    {
        let c: char = v[k];
        push_char(s, c);
        proof {
            assert(v@.subrange(from as int, k + 1 as int) =~= v@.subrange(
                from as int,
                k as int,
            ).push(v@[k as int]));
            assert(old(s)@ + v@.subrange(from as int, k + 1 as int) =~= (old(s)@ + v@.subrange(
                from as int,
                k as int,
            )).push(v@[k as int]));
        }
        k = k + 1;
    }
}

/// Writes `n` in decimal, exactly as [`dec_str`] describes it.
pub fn fmt_usize(n: usize) -> (r: String)
    ensures
        r@ == dec_str(n as nat),
{
    let mut digits: Vec<char> = Vec::new();
    let mut m: usize = n;
    if m == 0 {
        let mut s = String::new();
        push_char(&mut s, '0');
        proof {
            assert(s@ =~= dec_str(0));
        }
        return s;
    }
    while m > 0
        invariant
            m > 0 ==> dec_str(n as nat) == dec_str(m as nat) + digits@.reverse(),
            m == 0 ==> dec_str(n as nat) == digits@.reverse(),
        decreases m,
    {
        let d: usize = m % 10;
        let c: char = ((0x30u8 + (d as u8)) as char);
        proof {
            let md = m as nat;
            assert(c == dec_digit(d as int));
            assert(digits@.push(c).reverse() =~= seq![c] + digits@.reverse());
            if md >= 10 {
                assert(dec_str(md) == dec_str(md / 10).push(dec_digit((md % 10) as int)));
                assert(dec_str(md / 10).push(c) =~= dec_str(md / 10) + seq![c]);
                assert(dec_str(md / 10) + (seq![c] + digits@.reverse()) =~= (dec_str(md / 10)
                    + seq![c]) + digits@.reverse());
            } else {
                assert(dec_str(md) =~= seq![c]);
                assert(seq![c] + digits@.reverse() =~= dec_str(md) + digits@.reverse());
            }
        }
        digits.push(c);
        m = m / 10;
    }
    let mut s = String::new();
    let len: usize = digits.len();
    let mut j: usize = 0;
    while j < len
        invariant
            j <= len,
            len == digits@.len(),
            dec_str(n as nat) == digits@.reverse(),
            s@ == digits@.reverse().take(j as int),
        decreases len - j,
    {
        let c: char = digits[len - 1 - j];
        proof {
            assert(digits@.reverse()[j as int] == digits@[len - 1 - j as int]);
            assert(digits@.reverse().take(j + 1 as int) =~= digits@.reverse().take(
                j as int,
            ).push(digits@.reverse()[j as int]));
        }
        push_char(&mut s, c);
        j = j + 1;
    }
    proof {
        assert(digits@.reverse().take(len as int) =~= digits@.reverse());
    }
    s
}

} // verus!
