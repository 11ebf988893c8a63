use vstd::prelude::*;
use crate::error::RandomError;
use crate::keystream::{KeystreamGenerator, StreamState};
use crate::sampler::{sample_outcome, lemma_sample_deterministic};
use crate::charset::{build_charset, charset_of, lemma_charset_shape};

verus! {

/// `out` is what `out.len()` successive samples from `charset`, starting
/// from state `s0`, produce: `states` are the generator states between the
/// samples (ending in `after`) and `idxs` the charset indices drawn.
pub open spec fn symbol_trace(
    s0: StreamState,
    charset: Seq<u8>,
    out: Seq<u8>,
    after: StreamState,
    states: Seq<StreamState>,
    idxs: Seq<u64>,
) -> bool {
    &&& states.len() == out.len() + 1
    &&& idxs.len() == out.len()
    &&& states[0] == s0
    &&& states[out.len() as int] == after
    &&& forall|i: int|
        0 <= i < out.len() ==> {
            &&& sample_outcome(
                #[trigger] states[i],
                charset.len() as u64,
                Ok::<u64, RandomError>(idxs[i]),
                states[i + 1],
            )
            &&& idxs[i] < charset.len()
            &&& out[i] == charset[idxs[i] as int]
        }
}

/// `out` is drawn from `charset` with the keystream from `s0` on.
pub open spec fn drawn_symbols(s0: StreamState, charset: Seq<u8>, out: Seq<u8>, after: StreamState) -> bool {
    exists|states: Seq<StreamState>, idxs: Seq<u64>| symbol_trace(s0, charset, out, after, states, idxs)
}

proof fn lemma_traces_agree(
    s0: StreamState,
    charset: Seq<u8>,
    out1: Seq<u8>,
    after1: StreamState,
    st1: Seq<StreamState>,
    ix1: Seq<u64>,
    out2: Seq<u8>,
    after2: StreamState,
    st2: Seq<StreamState>,
    ix2: Seq<u64>,
    i: int,
)
    requires
        symbol_trace(s0, charset, out1, after1, st1, ix1),
        symbol_trace(s0, charset, out2, after2, st2, ix2),
        0 <= i <= out1.len(),
        i <= out2.len(),
    ensures
        st1[i] == st2[i],
        forall|j: int| 0 <= j < i ==> out1[j] == out2[j],
    decreases i,
{
    if i > 0 {
        lemma_traces_agree(s0, charset, out1, after1, st1, ix1, out2, after2, st2, ix2, i - 1);
        lemma_sample_deterministic(
            st1[i - 1],
            charset.len() as u64,
            Ok::<u64, RandomError>(ix1[i - 1]),
            st1[i],
            Ok::<u64, RandomError>(ix2[i - 1]),
            st2[i],
        );
    }
}

/// A trace extends by one more sample.
proof fn lemma_symbol_trace_push(
    s0: StreamState,
    charset: Seq<u8>,
    out: Seq<u8>,
    states: Seq<StreamState>,
    idxs: Seq<u64>,
    after: StreamState,
    idx: u64,
)
    requires
        symbol_trace(s0, charset, out, states[out.len() as int], states, idxs),
        sample_outcome(states[out.len() as int], charset.len() as u64, Ok::<u64, RandomError>(idx), after),
        idx < charset.len(),
    ensures
        symbol_trace(s0, charset, out.push(charset[idx as int]), after, states.push(after), idxs.push(idx)),
        charset.contains(charset[idx as int]),
{
    let o2 = out.push(charset[idx as int]);
    let s2 = states.push(after);
    let i2 = idxs.push(idx);
    assert forall|i: int| 0 <= i < o2.len() implies {
        &&& sample_outcome(
            #[trigger] s2[i],
            charset.len() as u64,
            Ok::<u64, RandomError>(i2[i]),
            s2[i + 1],
        )
        &&& i2[i] < charset.len()
        &&& o2[i] == charset[i2[i] as int]
    } by {
        if i < out.len() {
            assert(s2[i] == states[i]);
            assert(s2[i + 1] == states[i + 1]);
            assert(o2[i] == out[i]);
            assert(i2[i] == idxs[i]);
        }
    }
    assert(s2[0] == s0);
    assert(s2[o2.len() as int] == after);
}

/// Drawing `length` symbols from `s0` ran out of draws: a shorter prefix
/// was drawn, and the sample after it, from state `mid`, exhausted its
/// draws, leaving `after`.
pub open spec fn symbols_ran_out(s0: StreamState, charset: Seq<u8>, length: nat, after: StreamState) -> bool {
    exists|out: Seq<u8>, mid: StreamState|
        #![trigger drawn_symbols(s0, charset, out, mid)]
        out.len() < length && drawn_symbols(s0, charset, out, mid) && sample_outcome(
            mid,
            charset.len() as u64,
            Err::<u64, RandomError>(RandomError::RetriesExhausted),
            after,
        )
}

/// What drawing `length` symbols from `charset`, from state `s0`, gives and
/// the state it leaves.
pub open spec fn symbols_outcome(
    s0: StreamState,
    charset: Seq<u8>,
    length: nat,
    r: Result<Seq<u8>, RandomError>,
    after: StreamState,
) -> bool {
    match r {
        Ok(out) => out.len() == length && drawn_symbols(s0, charset, out, after),
        Err(e) => e == RandomError::RetriesExhausted && symbols_ran_out(s0, charset, length, after),
    }
}

/// The contents of a byte-vector result.
pub open spec fn bytes_result(r: Result<Vec<u8>, RandomError>) -> Result<Seq<u8>, RandomError> {
    match r {
        Ok(v) => Ok(v@),
        Err(e) => Err(e),
    }
}

/// Drawing the same number of symbols from the same charset, starting from
/// the same generator state (the same key, nonce and position), gives the
/// same result, success or failure, and leaves the same state: the output is
/// determined by the key and nonce alone.
pub proof fn lemma_symbols_deterministic(
    s0: StreamState,
    charset: Seq<u8>,
    length: nat,
    r1: Result<Seq<u8>, RandomError>,
    after1: StreamState,
    r2: Result<Seq<u8>, RandomError>,
    after2: StreamState,
)
    requires
        symbols_outcome(s0, charset, length, r1, after1),
        symbols_outcome(s0, charset, length, r2, after2),
    ensures
        r1 == r2,
        after1 == after2,
{
    // Each side is a trace `out` ending in `mid`, followed (on failure) by an
    // exhausted sample from `mid`.
    let (out1, mid1) = match r1 {
        Ok(o) => (o, after1),
        Err(_) => choose|out: Seq<u8>, mid: StreamState|
            #![trigger drawn_symbols(s0, charset, out, mid)]
            out.len() < length && drawn_symbols(s0, charset, out, mid) && sample_outcome(
                mid,
                charset.len() as u64,
                Err::<u64, RandomError>(RandomError::RetriesExhausted),
                after1,
            ),
    };
    let (out2, mid2) = match r2 {
        Ok(o) => (o, after2),
        Err(_) => choose|out: Seq<u8>, mid: StreamState|
            #![trigger drawn_symbols(s0, charset, out, mid)]
            out.len() < length && drawn_symbols(s0, charset, out, mid) && sample_outcome(
                mid,
                charset.len() as u64,
                Err::<u64, RandomError>(RandomError::RetriesExhausted),
                after2,
            ),
    };
    let (st1, ix1) = choose|states: Seq<StreamState>, idxs: Seq<u64>|
        symbol_trace(s0, charset, out1, mid1, states, idxs);
    let (st2, ix2) = choose|states: Seq<StreamState>, idxs: Seq<u64>|
        symbol_trace(s0, charset, out2, mid2, states, idxs);
    let m = if out1.len() <= out2.len() { out1.len() as int } else { out2.len() as int };
    lemma_traces_agree(s0, charset, out1, mid1, st1, ix1, out2, mid2, st2, ix2, m);
    if out1.len() < out2.len() {
        // Side 1 failed at `m`, where side 2 drew a symbol.
        lemma_sample_deterministic(
            st1[m],
            charset.len() as u64,
            Err::<u64, RandomError>(RandomError::RetriesExhausted),
            after1,
            Ok::<u64, RandomError>(ix2[m]),
            st2[m + 1],
        );
    } else if out2.len() < out1.len() {
        lemma_sample_deterministic(
            st2[m],
            charset.len() as u64,
            Err::<u64, RandomError>(RandomError::RetriesExhausted),
            after2,
            Ok::<u64, RandomError>(ix1[m]),
            st1[m + 1],
        );
    } else {
        assert(out1 =~= out2);
        if r1 is Err && r2 is Err {
            lemma_sample_deterministic(
                mid1,
                charset.len() as u64,
                Err::<u64, RandomError>(RandomError::RetriesExhausted),
                after1,
                Err::<u64, RandomError>(RandomError::RetriesExhausted),
                after2,
            );
        }
    }
}

/// The characters of a string of single-byte symbols.
pub open spec fn as_chars(b: Seq<u8>) -> Seq<char> {
    b.map_values(|c: u8| c as char)
}

/// Draws `length` symbols from `charset`, with replacement, one unbiased
/// sample each.
pub fn generate_symbols(gen: &mut KeystreamGenerator, charset: &Vec<u8>, length: usize) -> (r: Result<Vec<u8>, RandomError>)
    requires
        old(gen)@.wf(),
        charset@.len() > 0,
    ensures
        final(gen)@.wf(),
        match r {
            Ok(out) => {
                &&& out@.len() == length
                &&& drawn_symbols(old(gen)@, charset@, out@, final(gen)@)
                &&& forall|i: int| 0 <= i < length ==> charset@.contains(#[trigger] out@[i])
            },
            Err(e) => e == RandomError::RetriesExhausted,
        },
        symbols_outcome(old(gen)@, charset@, length as nat, bytes_result(r), final(gen)@),
{
    let mut out: Vec<u8> = Vec::new();
    let ghost mut states: Seq<StreamState> = seq![gen@];
    let ghost mut idxs: Seq<u64> = Seq::empty();
    let mut i: usize = 0;
    while i < length
        invariant
            gen@.wf(),
            charset@.len() > 0,
            i <= length,
            out@.len() == i,
            symbol_trace(old(gen)@, charset@, out@, gen@, states, idxs),
            forall|j: int| 0 <= j < i ==> charset@.contains(#[trigger] out@[j]),
        decreases length - i,
    {
        let ghost before = gen@;
        let idx = match gen.random_below(charset.len() as u64) {
            Ok(v) => v,
            Err(e) => {
                proof {
                    assert(drawn_symbols(old(gen)@, charset@, out@, before));
                    assert(symbols_ran_out(old(gen)@, charset@, length as nat, gen@));
                }
                return Err(e);
            },
        };
        let c = charset[idx as usize];
        proof {
            lemma_symbol_trace_push(old(gen)@, charset@, out@, states, idxs, gen@, idx);
            states = states.push(gen@);
            idxs = idxs.push(idx);
        }
        out.push(c);
        i = i + 1;
    }
    assert(symbol_trace(old(gen)@, charset@, out@, gen@, states, idxs));
    Ok(out)
}

/// Relies on `String::push`: appends one character.
#[verifier::external_body]
fn push_char(s: &mut String, c: char)
    ensures
        final(s)@ == old(s)@.push(c),
{
    s.push(c)
}

/// The string of single-byte symbols.
pub fn symbols_to_string(b: &Vec<u8>) -> (s: String)
    ensures
        s@ == as_chars(b@),
{
    let mut s = String::new();
    let mut i: usize = 0;
    while i < b.len()
        invariant
            i <= b@.len(),
            s@ == as_chars(b@.take(i as int)),
        decreases b.len() - i,
    {
        push_char(&mut s, b[i] as char);
        i = i + 1;
        assert(s@ =~= as_chars(b@.take(i as int)));
    }
    assert(b@.take(i as int) =~= b@);
    s
}

/// A random string of `length` characters drawn from the enabled classes,
/// using keystream `gen`. No class enabled is `EmptyCharset`; a zero length
/// is `InvalidLength`.
pub fn generate_string_with(
    gen: &mut KeystreamGenerator,
    use_digits: bool,
    use_lowercase: bool,
    use_uppercase: bool,
    use_spec: bool,
    length: usize,
) -> (r: Result<String, RandomError>)
    requires
        old(gen)@.wf(),
    ensures
        final(gen)@.wf(),
        !(use_digits || use_lowercase || use_uppercase || use_spec) ==> r == Err::<String, RandomError>(
            RandomError::EmptyCharset,
        ) && final(gen)@ == old(gen)@,
        (use_digits || use_lowercase || use_uppercase || use_spec) && length == 0 ==> r == Err::<
            String,
            RandomError,
        >(RandomError::InvalidLength) && final(gen)@ == old(gen)@,
        (use_digits || use_lowercase || use_uppercase || use_spec) && length > 0 ==> match r {
            Ok(s) => exists|out: Seq<u8>|
                s@ == as_chars(out) && #[trigger] symbols_outcome(
                    old(gen)@,
                    charset_of(use_digits, use_lowercase, use_uppercase, use_spec),
                    length as nat,
                    Ok::<Seq<u8>, RandomError>(out),
                    final(gen)@,
                ),
            Err(e) => symbols_outcome(
                old(gen)@,
                charset_of(use_digits, use_lowercase, use_uppercase, use_spec),
                length as nat,
                Err::<Seq<u8>, RandomError>(e),
                final(gen)@,
            ),
        },
        r matches Ok(s) ==> exists|out: Seq<u8>|
            #![trigger as_chars(out)]
            s@ == as_chars(out) && out.len() == length && forall|i: int|
                0 <= i < length ==> charset_of(use_digits, use_lowercase, use_uppercase, use_spec).contains(
                    #[trigger] out[i],
                ),
{
    if !(use_digits || use_lowercase || use_uppercase || use_spec) {
        return Err(RandomError::EmptyCharset);
    }
    if length == 0 {
        return Err(RandomError::InvalidLength);
    }
    let charset = build_charset(use_digits, use_lowercase, use_uppercase, use_spec);
    proof {
        lemma_charset_shape(use_digits, use_lowercase, use_uppercase, use_spec);
    }
    let out = match generate_symbols(gen, &charset, length) {
        Ok(out) => out,
        Err(e) => {
            return Err(e);
        },
    };
    let s = symbols_to_string(&out);
    assert(s@ == as_chars(out@) && symbols_outcome(old(gen)@, charset@, length as nat, Ok::<Seq<u8>, RandomError>(out@), gen@));
    let r: Result<String, RandomError> = Ok(s);
    assert(r matches Ok(t) ==> t@ == as_chars(out@));
    r
}

/// A random string of `length` characters drawn from the enabled classes,
/// from a generator freshly seeded by the operating system.
pub fn generate_random_string(
    use_digits: bool,
    use_lowercase: bool,
    use_uppercase: bool,
    use_spec: bool,
    length: usize,
) -> (r: Result<String, RandomError>)
    ensures
        !(use_digits || use_lowercase || use_uppercase || use_spec) ==> r == Err::<String, RandomError>(
            RandomError::EmptyCharset,
        ),
        (use_digits || use_lowercase || use_uppercase || use_spec) && length == 0 ==> r == Err::<
            String,
            RandomError,
        >(RandomError::InvalidLength),
        (use_digits || use_lowercase || use_uppercase || use_spec) && length > 0 ==> (r matches Err(
            e,
        ) ==> e == RandomError::EntropyUnavailable || e == RandomError::RetriesExhausted),
        r matches Ok(s) ==> exists|out: Seq<u8>|
            #![trigger as_chars(out)]
            s@ == as_chars(out) && out.len() == length && forall|i: int|
                0 <= i < length ==> charset_of(use_digits, use_lowercase, use_uppercase, use_spec).contains(
                    #[trigger] out[i],
                ),
{
    if !(use_digits || use_lowercase || use_uppercase || use_spec) {
        return Err(RandomError::EmptyCharset);
    }
    if length == 0 {
        return Err(RandomError::InvalidLength);
    }
    let mut gen = KeystreamGenerator::from_entropy()?;
    generate_string_with(&mut gen, use_digits, use_lowercase, use_uppercase, use_spec, length)
}

} // verus!
