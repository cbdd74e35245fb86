use vstd::prelude::*;
use vstd::string::*;
use vstd::utf8::encode_utf8;

verus! {

/// The UTF-8 encoding of a string, whose byte order is the order of `String`s.
pub open spec fn utf8_bytes(s: Seq<char>) -> Seq<u8> {
    encode_utf8(s)
}

/// Lexicographic order on byte strings: a proper prefix comes first, otherwise the first
/// differing byte decides.
pub open spec fn bytes_less(a: Seq<u8>, b: Seq<u8>) -> bool
    decreases a.len(),
{
    if a.len() == 0 {
        b.len() > 0
    } else if b.len() == 0 {
        false
    } else if a[0] != b[0] {
        a[0] < b[0]
    } else {
        bytes_less(a.drop_first(), b.drop_first())
    }
}


/// `a` sorts before `b` byte-wise: they agree up to some position `i`, where `a` ends while
/// `b` goes on, or both go on and `a` has the smaller byte.
pub open spec fn sorts_first(a: Seq<u8>, b: Seq<u8>) -> bool {
    exists|i: int|
        0 <= i <= a.len() && i <= b.len() && #[trigger] a.take(i) == b.take(i) && ((i == a.len() && i < b.len())
            || (i < a.len() && i < b.len() && a[i] < b[i]))
}

/// The lexicographic order is the usual one: a proper prefix comes first, otherwise the first
/// differing byte decides.
pub proof fn lemma_bytes_less_meaning(a: Seq<u8>, b: Seq<u8>)
    ensures
        bytes_less(a, b) == sorts_first(a, b),
    decreases a.len(),
{
    if a.len() == 0 {
        if b.len() > 0 {
            assert(a.take(0) =~= b.take(0));
        }
    } else if b.len() == 0 {
    } else if a[0] != b[0] {
        if a[0] < b[0] {
            assert(a.take(0) =~= b.take(0));
        }
        if sorts_first(a, b) {
            let i = choose|i: int|
                0 <= i <= a.len() && i <= b.len() && #[trigger] a.take(i) == b.take(i) && ((i == a.len() && i
                    < b.len()) || (i < a.len() && i < b.len() && a[i] < b[i]));
            if i > 0 {
                assert(a.take(i)[0] == b.take(i)[0]);
            }
        }
    } else {
        let a1 = a.drop_first();
        let b1 = b.drop_first();
        lemma_bytes_less_meaning(a1, b1);
        if sorts_first(a1, b1) {
            let i = choose|i: int|
                0 <= i <= a1.len() && i <= b1.len() && #[trigger] a1.take(i) == b1.take(i) && ((i == a1.len()
                    && i < b1.len()) || (i < a1.len() && i < b1.len() && a1[i] < b1[i]));
            assert(a.take(i + 1) =~= seq![a[0]] + a1.take(i));
            assert(b.take(i + 1) =~= seq![b[0]] + b1.take(i));
            assert(a.take(i + 1) == b.take(i + 1));
        }
        if sorts_first(a, b) {
            let i = choose|i: int|
                0 <= i <= a.len() && i <= b.len() && #[trigger] a.take(i) == b.take(i) && ((i == a.len() && i
                    < b.len()) || (i < a.len() && i < b.len() && a[i] < b[i]));
            assert(i > 0);
            assert(a1.take(i - 1) =~= a.take(i).drop_first());
            assert(b1.take(i - 1) =~= b.take(i).drop_first());
            assert(a1.take(i - 1) == b1.take(i - 1));
        }
    }
}

/// No byte string sorts before itself.
pub proof fn lemma_bytes_less_irreflexive(a: Seq<u8>)
    ensures
        !bytes_less(a, a),
    decreases a.len(),
{
    if a.len() > 0 {
        lemma_bytes_less_irreflexive(a.drop_first());
    }
}

/// Of two different byte strings exactly one sorts before the other.
pub proof fn lemma_bytes_less_total(a: Seq<u8>, b: Seq<u8>)
    ensures
        a != b ==> (bytes_less(a, b) <==> !bytes_less(b, a)),
        bytes_less(a, b) ==> !bytes_less(b, a),
    decreases a.len(),
{
    if a.len() == 0 {
        if b.len() > 0 {
            assert(a != b);
        } else {
            assert(a =~= b);
        }
    } else if b.len() == 0 {
    } else if a[0] != b[0] {
    } else {
        lemma_bytes_less_total(a.drop_first(), b.drop_first());
        if a.drop_first() == b.drop_first() {
            assert forall|i: int| 0 <= i < a.len() implies a[i] == b[i] by {
                if i > 0 {
                    assert(a[i] == a.drop_first()[i - 1]);
                    assert(b[i] == b.drop_first()[i - 1]);
                }
            }
            assert(a =~= b);
        }
    }
}

/// Different strings have different encodings.
pub proof fn lemma_utf8_bytes_injective(a: Seq<char>, b: Seq<char>)
    requires
        utf8_bytes(a) == utf8_bytes(b),
    ensures
        a == b,
{
    vstd::utf8::encode_utf8_decode_utf8(a);
    vstd::utf8::encode_utf8_decode_utf8(b);
}

/// Whether `a` sorts before `b` as Rust orders strings: by their bytes.
pub fn str_less(a: &str, b: &str) -> (less: bool)
    ensures
        less == bytes_less(utf8_bytes(a@), utf8_bytes(b@)),
{
    let x = a.as_bytes();
    let y = b.as_bytes();
    let ghost xs = x@;
    let ghost ys = y@;
    let mut i: usize = 0;
    assert(xs.skip(0) =~= xs);
    assert(ys.skip(0) =~= ys);
    while i < x.len() && i < y.len()
        invariant
            xs == x@,
            ys == y@,
            xs == utf8_bytes(a@),
            ys == utf8_bytes(b@),
            i <= xs.len(),
            i <= ys.len(),
            bytes_less(xs, ys) == bytes_less(xs.skip(i as int), ys.skip(i as int)),
        decreases x.len() - i,
    {
        if x[i] != y[i] {
            return x[i] < y[i];
        }
        assert(xs.skip(i as int).drop_first() =~= xs.skip(i + 1));
        assert(ys.skip(i as int).drop_first() =~= ys.skip(i + 1));
        i = i + 1;
    }
    i < y.len()
}

/// The first two characters of `text`, where it has them.
pub fn leading_chars(text: &str) -> (lead: (Option<char>, Option<char>))
    ensures
        lead.0 == (if text@.len() > 0 { Some(text@[0]) } else { None::<char> }),
        lead.1 == (if text@.len() > 1 { Some(text@[1]) } else { None::<char> }),
{
    broadcast use vstd::string::axiom_spec_iter, vstd::string::next_postcondition;
    let mut chars = text.chars();
    let first = chars.next();
    let second = chars.next();
    (first, second)
}

/// `text` followed by `tail`.
pub fn joined(text: &str, tail: &str) -> (out: String)
    ensures
        out@ == text@ + tail@,
{
    let mut out = text.to_owned();
    out.append(tail);
    out
}

} // verus!
