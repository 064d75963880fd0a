//! Wire framing for chat text: one message per newline-terminated line of
//! UTF-8 bytes. A reader must tolerate partial reads, so received bytes are
//! buffered until a newline is seen; a trailing carriage return before the
//! newline is not part of the message.

use vstd::prelude::*;

verus! {

/// Index of the first newline in `s`, or `-1` when there is none.
pub open spec fn first_newline(s: Seq<u8>) -> int
    decreases s.len(),
{
    if s.len() == 0 {
        -1
    } else if s[0] == 10 {
        0
    } else if first_newline(s.skip(1)) < 0 {
        -1
    } else {
        1 + first_newline(s.skip(1))
    }
}

/// `line` without one trailing carriage return, if it carries one.
pub open spec fn strip_cr(line: Seq<u8>) -> Seq<u8> {
    if line.len() > 0 && line.last() == 13 {
        line.drop_last()
    } else {
        line
    }
}

/// `first_newline` names the first newline: everything before it is not a
/// newline, and a negative answer means there is none at all.
pub proof fn lemma_first_newline(s: Seq<u8>)
    ensures
        first_newline(s) < 0 ==> forall|j: int| 0 <= j < s.len() ==> s[j] != 10,
        first_newline(s) >= 0 ==> first_newline(s) < s.len() && s[first_newline(s)] == 10
            && forall|j: int| 0 <= j < first_newline(s) ==> s[j] != 10,
    decreases s.len(),
{
    if s.len() == 0 {
    } else if s[0] == 10 {
    } else {
        lemma_first_newline(s.skip(1));
        let t = s.skip(1);
        if first_newline(t) < 0 {
            assert forall|j: int| 0 <= j < s.len() implies s[j] != 10 by {
                if j > 0 {
                    assert(t[j - 1] == s[j]);
                }
            }
        } else {
            assert(s[first_newline(s)] == t[first_newline(t)]);
            assert forall|j: int| 0 <= j < first_newline(s) implies s[j] != 10 by {
                if j > 0 {
                    assert(t[j - 1] == s[j]);
                }
            }
        }
    }
}

/// Frames `msg` as one wire line by appending the newline terminator.
/// A message is a single line, so it contains no newline itself.
pub fn frame_message(msg: &[u8]) -> (r: Vec<u8>)
    requires
        forall|j: int| 0 <= j < msg@.len() ==> msg@[j] != 10,
    ensures
        r@ == msg@ + seq![10u8],
{
    let mut r = vstd::slice::slice_to_vec(msg);
    r.push(10);
    proof {
        assert(r@ =~= msg@ + seq![10u8]);
    }
    r
}

/// Bytes received from one peer, buffered until a full line has arrived.
pub struct LineBuffer {
    pub data: Vec<u8>,
}

impl View for LineBuffer {
    type V = Seq<u8>;

    open spec fn view(&self) -> Seq<u8> {
        self.data@
    }
}

impl LineBuffer {
    /// An empty buffer for a fresh connection.
    pub fn new() -> (r: LineBuffer)
        ensures
            r@ == Seq::<u8>::empty(),
    {
        let r = LineBuffer { data: Vec::new() };
        proof {
            assert(r@ =~= Seq::<u8>::empty());
        }
        r
    }

    /// Takes in the bytes of one partial read, in order, after what is
    /// already buffered.
    pub fn push_chunk(&mut self, chunk: &[u8])
        ensures
            final(self)@ == old(self)@ + chunk@,
    {
        let n = chunk.len();
        let mut i: usize = 0;
        while i < n
            invariant
                n == chunk@.len(),
                0 <= i <= n,
                self.data@ == old(self).data@ + chunk@.subrange(0, i as int),
            decreases n - i,
        {
            self.data.push(chunk[i]);
            proof {
                assert(old(self).data@ + chunk@.subrange(0, i + 1) =~= (old(self).data@
                    + chunk@.subrange(0, i as int)).push(chunk@[i as int]));
            }
            i = i + 1;
        }
        proof {
            assert(chunk@.subrange(0, n as int) =~= chunk@);
        }
    }

    /// Takes the first complete line out of the buffer, without its newline
    /// and without a trailing carriage return, and keeps the rest. Returns
    /// nothing, and changes nothing, while no full line has arrived yet.
    pub fn next_message(&mut self) -> (r: Option<Vec<u8>>)
        ensures
            match r {
                Some(m) => {
                    &&& first_newline(old(self)@) >= 0
                    &&& m@ == strip_cr(old(self)@.take(first_newline(old(self)@)))
                    &&& final(self)@ == old(self)@.skip(first_newline(old(self)@) + 1)
                },
                None => final(self)@ == old(self)@ && first_newline(old(self)@) < 0,
            },
    {
        proof {
            lemma_first_newline(self.data@);
        }
        let n = self.data.len();
        let i = match crate::address::find_byte(self.data.as_slice(), 0, 10) {
            None => {
                proof {
                    if first_newline(self.data@) >= 0 {
                        assert(self.data@[first_newline(self.data@)] == 10);
                    }
                }
                return None;
            },
            Some(i) => i,
        };
        proof {
            let s = self.data@;
            let fi = first_newline(s);
            if fi != i as int {
                if fi < 0 {
                    assert(s[i as int] != 10);
                } else if fi < i as int {
                    assert(s[fi] != 10);
                } else {
                    assert(s[i as int] != 10);
                }
            }
        }
        let mut line_end: usize = i;
        if line_end > 0 && self.data[line_end - 1] == 13 {
            line_end = line_end - 1;
        }
        let m = vstd::slice::slice_to_vec(
            vstd::slice::slice_subrange(self.data.as_slice(), 0, line_end),
        );
        let rest = vstd::slice::slice_to_vec(
            vstd::slice::slice_subrange(self.data.as_slice(), i + 1, n),
        );
        self.data = rest;
        proof {
            let s = old(self)@;
            let fi = first_newline(s);
            assert(self.data@ =~= s.skip(fi + 1));
            if i > 0 && s[i - 1] == 13 {
                assert(s.take(fi).len() > 0 && s.take(fi).last() == 13);
                assert(m@ =~= s.take(fi).drop_last());
            } else {
                assert(m@ =~= s.take(fi));
                if s.take(fi).len() > 0 {
                    assert(s.take(fi).last() == s[fi - 1]);
                }
            }
        }
        Some(m)
    }
}

/// A framed message comes back out whole: pushing `msg + newline` into an
/// empty buffer yields exactly `msg`, with nothing left over.
pub proof fn lemma_frame_round_trip(msg: Seq<u8>)
    requires
        forall|j: int| 0 <= j < msg.len() ==> msg[j] != 10,
        msg.len() > 0 ==> msg.last() != 13,
    ensures
        first_newline(msg + seq![10u8]) == msg.len(),
        strip_cr((msg + seq![10u8]).take(msg.len() as int)) == msg,
        (msg + seq![10u8]).skip(msg.len() as int + 1) == Seq::<u8>::empty(),
{
    let framed = msg + seq![10u8];
    lemma_first_newline(framed);
    assert(framed[msg.len() as int] == 10);
    if first_newline(framed) < 0 {
        assert(framed[msg.len() as int] != 10);
    }
    if first_newline(framed) < msg.len() {
        assert(framed[first_newline(framed)] == msg[first_newline(framed)]);
    }
    assert(framed.take(msg.len() as int) =~= msg);
    assert(framed.skip(msg.len() as int + 1) =~= Seq::<u8>::empty());
}

} // verus!
