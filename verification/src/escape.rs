//! The escape rule for quoted parameter values in `Content-Disposition`
//! headers: `"` (0x22), `\` (0x5C) and CR (0x0D) each gain a leading
//! backslash; every other byte passes through unchanged. LF is deliberately
//! not escaped.

use vstd::prelude::*;

verus! {

/// The three bytes that must be escaped inside a quoted parameter value.
pub open spec fn needs_escape(b: u8) -> bool {
    b == 0x22 || b == 0x5c || b == 0x0d
}

/// How one byte is rendered inside a quoted parameter value.
pub open spec fn escape_byte(b: u8) -> Seq<u8> {
    if needs_escape(b) {
        seq![0x5cu8, b]
    } else {
        seq![b]
    }
}

/// The escaped form of a whole byte string.
pub open spec fn escape_bytes(s: Seq<u8>) -> Seq<u8>
    decreases s.len(),
{
    if s.len() == 0 {
        Seq::empty()
    } else {
        escape_byte(s[0]) + escape_bytes(s.skip(1))
    }
}

/// Escaping distributes over concatenation.
pub proof fn lemma_escape_bytes_append(a: Seq<u8>, b: Seq<u8>)
    ensures
        escape_bytes(a + b) == escape_bytes(a) + escape_bytes(b),
    decreases a.len(),
{
    if a.len() == 0 {
        assert(a + b =~= b);
        assert(escape_bytes(a) + escape_bytes(b) =~= escape_bytes(b));
    } else {
        assert((a + b).skip(1) =~= a.skip(1) + b);
        lemma_escape_bytes_append(a.skip(1), b);
        assert(escape_bytes(a + b) =~= escape_bytes(a) + escape_bytes(b));
    }
}

/// Escape faithfulness, identity half: a byte string that holds none of `"`,
/// `\` and CR is left exactly as it is.
pub proof fn lemma_escape_identity(s: Seq<u8>)
    requires
        forall|i: int| 0 <= i < s.len() ==> !needs_escape(s[i]),
    ensures
        escape_bytes(s) == s,
    decreases s.len(),
{
    if s.len() == 0 {
        assert(escape_bytes(s) =~= s);
    } else {
        assert(forall|i: int| 0 <= i < s.skip(1).len() ==> s.skip(1)[i] == s[i + 1]);
        lemma_escape_identity(s.skip(1));
        assert(escape_bytes(s) =~= s);
    }
}

/// A byte string in escaped form: read left to right, every backslash opens a
/// two-byte escape whose target is `"`, `\` or CR, and no bare `"` or CR
/// occurs. So there is no unescaped quote, no lone backslash and no unescaped
/// CR.
pub open spec fn escaped_form(e: Seq<u8>) -> bool
    decreases e.len(),
{
    if e.len() == 0 {
        true
    } else if e[0] == 0x5c {
        e.len() >= 2 && needs_escape(e[1]) && escaped_form(e.skip(2))
    } else {
        e[0] != 0x22 && e[0] != 0x0d && escaped_form(e.skip(1))
    }
}

/// Escape faithfulness, well-formedness half: escaping any byte string yields
/// a string in escaped form.
pub proof fn lemma_escape_escaped_form(s: Seq<u8>)
    ensures
        escaped_form(escape_bytes(s)),
    decreases s.len(),
{
    if s.len() == 0 {
    } else {
        lemma_escape_escaped_form(s.skip(1));
        let e = escape_bytes(s);
        if needs_escape(s[0]) {
            assert(e[0] == 0x5c && e[1] == s[0]);
            assert(e.skip(2) =~= escape_bytes(s.skip(1)));
        } else {
            assert(e[0] == s[0]);
            assert(e.skip(1) =~= escape_bytes(s.skip(1)));
        }
    }
}

/// Appends the escaped form of `bytes` to `out`.
pub fn escape_into(out: &mut Vec<u8>, bytes: &[u8])
    ensures
        final(out)@ == old(out)@ + escape_bytes(bytes@),
{
    let ghost orig = out@;
    let mut i: usize = 0;
    while i < bytes.len()
        invariant
            i <= bytes@.len(),
            out@ == orig + escape_bytes(bytes@.take(i as int)),
        decreases bytes@.len() - i,
    {
        let b = *vstd::slice::slice_index_get(bytes, i);
        if b == 0x22 || b == 0x5c || b == 0x0d {
            out.push(0x5c);
        }
        out.push(b);
        proof {
            let pre = bytes@.take(i as int);
            let single = seq![bytes@[i as int]];
            assert(bytes@.take(i as int + 1) =~= pre + single);
            lemma_escape_bytes_append(pre, single);
            assert(single.skip(1) =~= Seq::<u8>::empty());
            assert(escape_bytes(Seq::<u8>::empty()) =~= Seq::<u8>::empty());
            assert(escape_bytes(single) =~= escape_byte(bytes@[i as int]));
            assert(out@ =~= orig + escape_bytes(bytes@.take(i as int + 1)));
        }
        i = i + 1;
    }
    proof {
        assert(bytes@.take(bytes@.len() as int) =~= bytes@);
    }
}

} // verus!
