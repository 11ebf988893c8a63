use vstd::prelude::*;

verus! {

/// `n` consecutive byte values starting at `first`.
pub open spec fn byte_run(first: u8, n: nat) -> Seq<u8> {
    Seq::new(n, |i: int| (first as int + i) as u8)
}

/// The digits `0`..`9`.
pub open spec fn digit_symbols() -> Seq<u8> {
    byte_run(0x30, 10)
}

/// The lowercase letters `a`..`z`.
pub open spec fn lowercase_symbols() -> Seq<u8> {
    byte_run(0x61, 26)
}

/// The uppercase letters `A`..`Z`.
pub open spec fn uppercase_symbols() -> Seq<u8> {
    byte_run(0x41, 26)
}

/// The special symbols `!@#$%^&*-_=+~><?/`, in that order.
pub open spec fn special_symbols() -> Seq<u8> {
    seq![
        0x21u8, 0x40, 0x23, 0x24, 0x25, 0x5e, 0x26, 0x2a, 0x2d, 0x5f, 0x3d, 0x2b, 0x7e, 0x3e, 0x3c,
        0x3f, 0x2f,
    ]
}

pub open spec fn class_if(on: bool, symbols: Seq<u8>) -> Seq<u8> {
    if on {
        symbols
    } else {
        Seq::empty()
    }
}

/// The charset of a class selection: the enabled classes concatenated in the
/// order digits, lowercase, uppercase, special.
pub open spec fn charset_of(digits: bool, lowercase: bool, uppercase: bool, special: bool) -> Seq<u8> {
    class_if(digits, digit_symbols()) + class_if(lowercase, lowercase_symbols())
        + class_if(uppercase, uppercase_symbols()) + class_if(special, special_symbols())
}

/// Every symbol of every class is printable ASCII.
pub open spec fn is_ascii_symbol(b: u8) -> bool {
    0x21 <= b <= 0x7e
}

fn push_run(v: &mut Vec<u8>, first: u8, n: u8)
    requires
        first as int + n as int <= 256,
    ensures
        final(v)@ == old(v)@ + byte_run(first, n as nat),
{
    let mut i: u8 = 0;
    while i < n
        invariant
            i <= n,
            first as int + n as int <= 256,
            v@ == old(v)@ + byte_run(first, i as nat),
        decreases n - i,
    {
        v.push(first + i);
        i = i + 1;
        assert(v@ =~= old(v)@ + byte_run(first, i as nat));
    }
}

fn push_specials(v: &mut Vec<u8>)
    ensures
        final(v)@ == old(v)@ + special_symbols(),
{
    let specials: Vec<u8> = vec![
        0x21u8, 0x40, 0x23, 0x24, 0x25, 0x5e, 0x26, 0x2a, 0x2d, 0x5f, 0x3d, 0x2b, 0x7e, 0x3e, 0x3c,
        0x3f, 0x2f,
    ];
    assert(specials@ =~= special_symbols());
    let mut i: usize = 0;
    while i < specials.len()
        invariant
            i <= specials@.len(),
            specials@ == special_symbols(),
            v@ == old(v)@ + specials@.take(i as int),
        decreases specials.len() - i,
    {
        v.push(specials[i]);
        i = i + 1;
        assert(v@ =~= old(v)@ + specials@.take(i as int));
    }
    assert(specials@.take(i as int) =~= specials@);
}

/// Builds the charset of a class selection.
pub fn build_charset(digits: bool, lowercase: bool, uppercase: bool, special: bool) -> (r: Vec<u8>)
    ensures
        r@ == charset_of(digits, lowercase, uppercase, special),
{
    let mut r: Vec<u8> = Vec::new();
    if digits {
        push_run(&mut r, 0x30, 10);
    }
    assert(r@ =~= class_if(digits, digit_symbols()));
    let ghost a = r@;
    if lowercase {
        push_run(&mut r, 0x61, 26);
    }
    assert(r@ =~= a + class_if(lowercase, lowercase_symbols()));
    let ghost b = r@;
    if uppercase {
        push_run(&mut r, 0x41, 26);
    }
    assert(r@ =~= b + class_if(uppercase, uppercase_symbols()));
    let ghost c = r@;
    if special {
        push_specials(&mut r);
    }
    assert(r@ =~= c + class_if(special, special_symbols()));
    r
}

/// The charset is empty exactly when no class is enabled, holds at most
/// 79 symbols, and every symbol in it is printable ASCII.
pub proof fn lemma_charset_shape(digits: bool, lowercase: bool, uppercase: bool, special: bool)
    ensures
        charset_of(digits, lowercase, uppercase, special).len() == 0 <==> !(digits || lowercase
            || uppercase || special),
        charset_of(digits, lowercase, uppercase, special).len() <= 79,
        forall|i: int|
            0 <= i < charset_of(digits, lowercase, uppercase, special).len() ==> is_ascii_symbol(
                #[trigger] charset_of(digits, lowercase, uppercase, special)[i],
            ),
{
    let cs = charset_of(digits, lowercase, uppercase, special);
    let d = class_if(digits, digit_symbols());
    let l = class_if(lowercase, lowercase_symbols());
    let u = class_if(uppercase, uppercase_symbols());
    let s = class_if(special, special_symbols());
    assert(forall|i: int| 0 <= i < d.len() ==> is_ascii_symbol(#[trigger] d[i]));
    assert(forall|i: int| 0 <= i < l.len() ==> is_ascii_symbol(#[trigger] l[i]));
    assert(forall|i: int| 0 <= i < u.len() ==> is_ascii_symbol(#[trigger] u[i]));
    assert(forall|i: int| 0 <= i < s.len() ==> is_ascii_symbol(#[trigger] s[i])) by {
        if special {
            assert(special_symbols() =~= seq![
                0x21u8, 0x40, 0x23, 0x24, 0x25, 0x5e, 0x26, 0x2a, 0x2d, 0x5f, 0x3d, 0x2b, 0x7e,
                0x3e, 0x3c, 0x3f, 0x2f,
            ]);
        }
    }
    assert forall|i: int| 0 <= i < cs.len() implies is_ascii_symbol(#[trigger] cs[i]) by {
        if i < d.len() {
            assert(cs[i] == d[i]);
        } else if i < d.len() + l.len() {
            assert(cs[i] == l[i - d.len()]);
        } else if i < d.len() + l.len() + u.len() {
            assert(cs[i] == u[i - d.len() - l.len()]);
        } else {
            assert(cs[i] == s[i - d.len() - l.len() - u.len()]);
        }
    }
}

} // verus!
