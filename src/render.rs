use vstd::prelude::*;
use vstd::utf8::encode_utf8;

verus! {

/// A renderer into a caller's fixed-capacity byte buffer.
pub trait TemplateFixedTrait {
    /// Writes the render to the front of `buf` and returns how many bytes it
    /// took, or `None` when it does not fit.
    fn call(&self, buf: &mut [u8]) -> Option<usize>;
}

/// The text a render produces, as the pieces it writes one after another:
/// literal runs and the display of each expression.
pub struct Pieces {
    pub parts: Vec<String>,
}

/// The characters of the pieces, in order.
pub open spec fn joined(parts: Seq<String>) -> Seq<char>
    decreases parts.len(),
{
    if parts.len() == 0 {
        Seq::empty()
    } else {
        joined(parts.drop_last()) + parts.last()@
    }
}

/// The UTF-8 bytes of the pieces, piece after piece.
pub open spec fn joined_bytes(parts: Seq<String>) -> Seq<u8>
    decreases parts.len(),
{
    if parts.len() == 0 {
        Seq::empty()
    } else {
        joined_bytes(parts.drop_last()) + encode_utf8(parts.last()@)
    }
}

proof fn lemma_encode_concat(a: Seq<char>, b: Seq<char>)
    ensures
        encode_utf8(a + b) == encode_utf8(a) + encode_utf8(b),
    decreases a.len(),
{
    if a.len() == 0 {
        assert(a + b =~= b);
        assert(encode_utf8(a) =~= Seq::<u8>::empty());
        assert(encode_utf8(a) + encode_utf8(b) =~= encode_utf8(b));
    } else {
        lemma_encode_concat(a.drop_first(), b);
        assert((a + b).drop_first() =~= a.drop_first() + b);
        assert((a + b)[0] == a[0]);
        assert(encode_utf8(a + b) =~= vstd::utf8::encode_scalar(a[0] as u32) + encode_utf8(
            a.drop_first() + b,
        ));
    }
}

/// The bytes a fixed-buffer render writes are the UTF-8 form of the text a
/// buffered render produces.
pub proof fn lemma_backends_agree(parts: Seq<String>)
    ensures
        joined_bytes(parts) == encode_utf8(joined(parts)),
    decreases parts.len(),
{
    if parts.len() == 0 {
        assert(encode_utf8(Seq::<char>::empty()) =~= Seq::<u8>::empty());
    } else {
        lemma_backends_agree(parts.drop_last());
        lemma_encode_concat(joined(parts.drop_last()), parts.last()@);
    }
}

/// Copies `bytes` into `buf` at `cur` when they fit in the room left.
pub fn write_bytes(buf: &mut [u8], cur: usize, bytes: &[u8]) -> (r: Option<usize>)
    requires
        cur <= old(buf)@.len(),
    ensures
        final(buf)@.len() == old(buf)@.len(),
        bytes@.len() <= old(buf)@.len() - cur ==> r is Some && r->0 == cur + bytes@.len()
            && final(buf)@ == old(buf)@.subrange(0, cur as int) + bytes@ + old(buf)@.subrange(
            cur + bytes@.len(),
            old(buf)@.len() as int,
        ),
        bytes@.len() > old(buf)@.len() - cur ==> r is None && final(buf)@ == old(buf)@,
{
    if buf.len() - cur < bytes.len() {
        return None;
    }
    let ghost start = buf@;
    let n = buf.len();
    let mut k: usize = 0;
    while k < bytes.len()
        invariant
            n == buf@.len(),
            cur + bytes@.len() <= buf@.len(),
            buf@.len() == start.len(),
            k <= bytes@.len(),
            forall|j: int| 0 <= j < cur ==> buf@[j] == start[j],
            forall|j: int| 0 <= j < k ==> buf@[cur + j] == bytes@[j],
            forall|j: int| cur + k <= j < buf@.len() ==> buf@[j] == start[j],
        decreases bytes@.len() - k,
    {
        buf[cur + k] = bytes[k];
        k = k + 1;
    }
    proof {
        assert(buf@ =~= start.subrange(0, cur as int) + bytes@ + start.subrange(
            cur + bytes@.len(),
            start.len() as int,
        ));
    }
    Some(cur + bytes.len())
}

/// Sets every byte of `buf` to zero.
pub fn clear(buf: &mut [u8])
    ensures
        final(buf)@.len() == old(buf)@.len(),
        forall|j: int| 0 <= j < final(buf)@.len() ==> final(buf)@[j] == 0u8,
{
    let mut k: usize = 0;
    while k < buf.len()
        invariant
            buf@.len() == old(buf)@.len(),
            k <= buf@.len(),
            forall|j: int| 0 <= j < k ==> buf@[j] == 0u8,
        decreases buf@.len() - k,
    {
        buf[k] = 0u8;
        k = k + 1;
    }
}

impl Pieces {
    pub open spec fn spec_output(&self) -> Seq<char> {
        joined(self.parts@)
    }

    pub open spec fn spec_bytes(&self) -> Seq<u8> {
        encode_utf8(self.spec_output())
    }

    /// The render into a growable buffer.
    pub fn render(&self) -> (r: String)
        ensures
            r@ == self.spec_output(),
    {
        let mut out = String::new();
        let mut i: usize = 0;
        while i < self.parts.len()
            invariant
                i <= self.parts@.len(),
                out@ == joined(self.parts@.subrange(0, i as int)),
            decreases self.parts@.len() - i,
        {
            out.append(self.parts[i].as_str());
            proof {
                let sub = self.parts@.subrange(0, i as int + 1);
                assert(sub.drop_last() =~= self.parts@.subrange(0, i as int));
            }
            i = i + 1;
        }
        proof {
            assert(self.parts@.subrange(0, i as int) =~= self.parts@);
        }
        out
    }

    /// The render into the fixed buffer `buf`. When the output fits, it
    /// fills the front of `buf`, the rest is left as it was, and its length
    /// is returned. When it does not, `None` is returned and the whole
    /// buffer is zeroed, so no partial render survives.
    pub fn render_into(&self, buf: &mut [u8]) -> (r: Option<usize>)
        ensures
            final(buf)@.len() == old(buf)@.len(),
            self.spec_bytes().len() <= old(buf)@.len() ==> r is Some && r->0
                == self.spec_bytes().len() && final(buf)@ == self.spec_bytes() + old(buf)@.subrange(
                self.spec_bytes().len() as int,
                old(buf)@.len() as int,
            ),
            self.spec_bytes().len() > old(buf)@.len() ==> r is None && forall|j: int|
                0 <= j < final(buf)@.len() ==> final(buf)@[j] == 0u8,
    {
        let ghost start = buf@;
        proof {
            assert(start == old(buf)@);
            lemma_backends_agree(self.parts@);
        }
        let mut cur: usize = 0;
        let mut i: usize = 0;
        while i < self.parts.len()
            invariant
                i <= self.parts@.len(),
                start == old(buf)@,
                buf@.len() == start.len(),
                cur == joined_bytes(self.parts@.subrange(0, i as int)).len(),
                cur <= buf@.len(),
                buf@ == joined_bytes(self.parts@.subrange(0, i as int)) + start.subrange(
                    cur as int,
                    start.len() as int,
                ),
                joined_bytes(self.parts@) == self.spec_bytes(),
            decreases self.parts@.len() - i,
        {
            let ghost before = buf@;
            let bytes = self.parts[i].as_str().as_bytes();
            let ghost sub = self.parts@.subrange(0, i as int + 1);
            proof {
                assert(sub.drop_last() =~= self.parts@.subrange(0, i as int));
                assert(sub.last() == self.parts@[i as int]);
                assert(joined_bytes(sub) == joined_bytes(self.parts@.subrange(0, i as int))
                    + bytes@);
            }
            match write_bytes(buf, cur, bytes) {
                Some(next) => {
                    proof {
                        let pre = joined_bytes(self.parts@.subrange(0, i as int));
                        assert(bytes@.len() <= before.len() - cur);
                        assert(next == cur + bytes@.len());
                        assert(pre.len() == cur);
                        assert(before.subrange(0, cur as int) =~= pre);
                        assert(before.subrange(next as int, before.len() as int) =~= start.subrange(
                            next as int,
                            start.len() as int,
                        ));
                        assert(buf@ =~= joined_bytes(sub) + start.subrange(
                            next as int,
                            start.len() as int,
                        ));
                    }
                    cur = next;
                },
                None => {
                    proof {
                        lemma_prefix_bytes_fit(self.parts@, i as int + 1);
                    }
                    clear(buf);
                    assert(buf@.len() == start.len());
                    return None;
                },
            }
            i = i + 1;
        }
        proof {
            assert(self.parts@.subrange(0, i as int) =~= self.parts@);
        }
        Some(cur)
    }
}

proof fn lemma_prefix_bytes_fit(parts: Seq<String>, k: int)
    requires
        0 <= k <= parts.len(),
    ensures
        joined_bytes(parts.subrange(0, k)).len() <= joined_bytes(parts).len(),
    decreases parts.len() - k,
{
    if k < parts.len() {
        lemma_prefix_bytes_fit(parts, k + 1);
        let sub = parts.subrange(0, k + 1);
        assert(sub.drop_last() =~= parts.subrange(0, k));
    } else {
        assert(parts.subrange(0, k) =~= parts);
    }
}

impl TemplateFixedTrait for Pieces {
    fn call(&self, buf: &mut [u8]) -> (r: Option<usize>) {
        self.render_into(buf)
    }
}

} // verus!
