//! Layout of captured child output (`--capture`).
//!
//! After all children have exited, their captured stdouts are emitted in argv
//! order. A child that wrote nothing contributes nothing; any other child's
//! output is followed by a line feed unless it already ends with one.

use vstd::prelude::*;

verus! {

/// One child's captured output as emitted: nothing when it is empty, else the
/// bytes followed by a line feed unless they end with one.
pub open spec fn framed(bytes: Seq<u8>) -> Seq<u8> {
    if bytes.len() == 0 || bytes.last() == 10u8 {
        bytes
    } else {
        bytes.push(10u8)
    }
}

/// The emitted output for the captured outputs of all children, in argv order.
pub open spec fn capture_layout(outputs: Seq<Seq<u8>>) -> Seq<u8>
    decreases outputs.len(),
{
    if outputs.len() == 0 {
        Seq::empty()
    } else {
        capture_layout(outputs.drop_last()) + framed(outputs.last())
    }
}

/// The views of a sequence of byte vectors.
pub open spec fn byte_views(v: Seq<Vec<u8>>) -> Seq<Seq<u8>> {
    v.map_values(|b: Vec<u8>| b@)
}

fn append_bytes(out: &mut Vec<u8>, bytes: &Vec<u8>)
    ensures
        final(out)@ == old(out)@ + bytes@,
{
    let n = bytes.len();
    let ghost start = out@;
    let mut i: usize = 0;
    while i < n
        invariant
            n == bytes@.len(),
            i <= n,
            out@ =~= start + bytes@.take(i as int),
        decreases n - i,
    {
        out.push(bytes[i]);
        i = i + 1;
    }
    assert(bytes@.take(n as int) =~= bytes@);
}

/// The bytes to emit for the captured outputs of all children, in argv order.
pub fn capture_output(outputs: &Vec<Vec<u8>>) -> (r: Vec<u8>)
    ensures
        r@ == capture_layout(byte_views(outputs@)),
        r@.len() == emitted_len(byte_views(outputs@)),
        forall|i: int|
            0 <= i < outputs@.len() ==> {
                let at = emitted_len(byte_views(outputs@).take(i)) as int;
                r@.subrange(at, at + outputs@[i]@.len()) == #[trigger] outputs@[i]@
            },
{
    proof {
        lemma_layout_holds_every_output_whole(byte_views(outputs@));
        assert forall|i: int| 0 <= i < outputs@.len() implies byte_views(outputs@)[i]
            == #[trigger] outputs@[i]@ by {}
    }
    let n = outputs.len();
    let mut out: Vec<u8> = Vec::new();
    let mut i: usize = 0;
    while i < n
        invariant
            n == outputs@.len(),
            i <= n,
            out@ == capture_layout(byte_views(outputs@).take(i as int)),
        decreases n - i,
    {
        let bytes = &outputs[i];
        let ghost before = out@;
        assert(byte_views(outputs@).take(i + 1).drop_last() =~= byte_views(outputs@).take(
            i as int,
        ));
        assert(byte_views(outputs@).take(i + 1).last() == bytes@);
        if bytes.len() > 0 {
            append_bytes(&mut out, bytes);
            if bytes[bytes.len() - 1] != 10u8 {
                out.push(10u8);
                assert(out@ =~= before + bytes@.push(10u8));
            }
        } else {
            assert(before + bytes@ =~= before);
        }
        i = i + 1;
    }
    assert(byte_views(outputs@).take(n as int) =~= byte_views(outputs@));
    out
}

/// Emitting two runs of children one after the other is emitting them together.
pub proof fn lemma_layout_concat(a: Seq<Seq<u8>>, b: Seq<Seq<u8>>)
    ensures
        capture_layout(a + b) == capture_layout(a) + capture_layout(b),
    decreases b.len(),
{
    if b.len() == 0 {
        assert(a + b =~= a);
        assert(capture_layout(a) + Seq::<u8>::empty() =~= capture_layout(a));
    } else {
        lemma_layout_concat(a, b.drop_last());
        assert((a + b).drop_last() =~= a + b.drop_last());
        assert((a + b).last() == b.last());
        assert(capture_layout(a) + capture_layout(b.drop_last()) + framed(b.last()) =~= capture_layout(
            a,
        ) + (capture_layout(b.drop_last()) + framed(b.last())));
    }
}

/// A child that wrote nothing leaves no trace in the emitted output, not even
/// a separator.
pub proof fn lemma_silent_child_emits_nothing(a: Seq<Seq<u8>>, b: Seq<Seq<u8>>)
    ensures
        capture_layout(a + seq![Seq::<u8>::empty()] + b) == capture_layout(a + b),
{
    let e = seq![Seq::<u8>::empty()];
    lemma_layout_concat(a + e, b);
    lemma_layout_concat(a, e);
    lemma_layout_concat(a, b);
    assert(e.drop_last() =~= Seq::<Seq<u8>>::empty());
    assert(capture_layout(e.drop_last()) == Seq::<u8>::empty());
    assert(e.last() == Seq::<u8>::empty());
    assert(framed(e.last()) == Seq::<u8>::empty());
    assert(capture_layout(e) =~= Seq::<u8>::empty());
    assert(capture_layout(a) + capture_layout(e) =~= capture_layout(a));
}

/// Non-empty emitted output always ends with a line feed, so the output of
/// the next child starts on a line of its own.
pub proof fn lemma_layout_ends_with_line_feed(outputs: Seq<Seq<u8>>)
    ensures
        capture_layout(outputs).len() > 0 ==> capture_layout(outputs).last() == 10u8,
    decreases outputs.len(),
{
    if outputs.len() > 0 {
        lemma_layout_ends_with_line_feed(outputs.drop_last());
    }
}


/// 1 when a line feed is added after `bytes`: they are non-empty and do not
/// end with one; 0 otherwise.
pub open spec fn added_line_feeds(bytes: Seq<u8>) -> nat {
    if bytes.len() > 0 && bytes[bytes.len() - 1] != 10u8 {
        1
    } else {
        0
    }
}

/// The number of bytes emitted for `outputs`: every output whole, plus one
/// for each added line feed.
pub open spec fn emitted_len(outputs: Seq<Seq<u8>>) -> nat
    decreases outputs.len(),
{
    if outputs.len() == 0 {
        0
    } else {
        emitted_len(outputs.drop_last()) + outputs.last().len() + added_line_feeds(
            outputs.last(),
        )
    }
}

/// Nothing is lost or reordered: the emitted output has exactly
/// `emitted_len` bytes, each child's output appears whole and contiguous at
/// the offset where the earlier children's output ends, and an added
/// separator byte is a line feed.
pub proof fn lemma_layout_holds_every_output_whole(outputs: Seq<Seq<u8>>)
    ensures
        capture_layout(outputs).len() == emitted_len(outputs),
        forall|i: int|
            #![trigger outputs[i]]
            0 <= i < outputs.len() ==> {
                let at = emitted_len(outputs.take(i)) as int;
                &&& capture_layout(outputs).subrange(at, at + outputs[i].len()) == outputs[i]
                &&& added_line_feeds(outputs[i]) == 1 ==> capture_layout(outputs)[at
                    + outputs[i].len()] == 10u8
            },
    decreases outputs.len(),
{
    if outputs.len() > 0 {
        let init = outputs.drop_last();
        let last = outputs.last();
        lemma_layout_holds_every_output_whole(init);
        let prev = capture_layout(init);
        let whole = capture_layout(outputs);
        assert(whole == prev + framed(last));
        if last.len() > 0 {
            assert(last.last() == last[last.len() - 1]);
        }
        assert forall|i: int| #![trigger outputs[i]] 0 <= i < outputs.len() implies {
            let at = emitted_len(outputs.take(i)) as int;
            &&& whole.subrange(at, at + outputs[i].len()) == outputs[i]
            &&& added_line_feeds(outputs[i]) == 1 ==> whole[at + outputs[i].len()] == 10u8
        } by {
            let at = emitted_len(outputs.take(i)) as int;
            if i < init.len() {
                assert(outputs.take(i) =~= init.take(i));
                assert(init[i] == outputs[i]);
                assert(at + outputs[i].len() + added_line_feeds(outputs[i]) <= prev.len()) by {
                    lemma_emitted_len_prefix(init, i);
                }
                assert(whole.subrange(at, at + outputs[i].len()) =~= prev.subrange(
                    at,
                    at + outputs[i].len(),
                ));
                if added_line_feeds(outputs[i]) == 1 {
                    assert(whole[at + outputs[i].len()] == prev[at + outputs[i].len()]);
                }
            } else {
                assert(outputs.take(i) =~= init);
                assert(whole.subrange(at, at + outputs[i].len()) =~= last);
                if added_line_feeds(outputs[i]) == 1 {
                    assert(framed(last) == last.push(10u8));
                    assert(whole[at + outputs[i].len()] == framed(last)[last.len() as int]);
                }
            }
        }
    }
}

/// The bytes emitted for the first `i + 1` children fit in those of all of them.
pub proof fn lemma_emitted_len_prefix(outputs: Seq<Seq<u8>>, i: int)
    requires
        0 <= i < outputs.len(),
    ensures
        emitted_len(outputs.take(i)) + outputs[i].len() + added_line_feeds(outputs[i])
            <= emitted_len(outputs),
    decreases outputs.len(),
{
    let init = outputs.drop_last();
    if i == outputs.len() - 1 {
        assert(outputs.take(i) =~= init);
    } else {
        lemma_emitted_len_prefix(init, i);
        assert(init.take(i) =~= outputs.take(i));
        assert(init[i] == outputs[i]);
    }
}

} // verus!
