use vstd::prelude::*;

verus! {

/// The keyboard device as the engine sees it: a queue of bytes that have
/// arrived but have not yet been consumed. Polling the front never blocks;
/// whatever feeds the queue (stdin, a test) lives outside the engine and
/// pushes bytes at the back as they arrive.
pub struct InputQueue {
    pending: Vec<u8>,
}

impl View for InputQueue {
    type V = Seq<u8>;

    closed spec fn view(&self) -> Seq<u8> {
        self.pending@
    }
}

impl InputQueue {
    /// A fresh queue: no byte is pending.
    pub fn new() -> (r: InputQueue)
        ensures
            r@ == Seq::<u8>::empty(),
    {
        InputQueue { pending: Vec::new() }
    }

    /// A byte arriving from the outside world joins the back of the queue.
    pub fn push(&mut self, byte: u8)
        ensures
            final(self)@ == old(self)@.push(byte),
    {
        self.pending.push(byte);
    }

    /// How many bytes are pending.
    pub fn len(&self) -> (r: usize)
        ensures
            r == self@.len(),
    {
        self.pending.len()
    }

    /// Whether no byte is pending.
    pub fn is_empty(&self) -> (r: bool)
        ensures
            r == (self@.len() == 0),
    {
        self.pending.len() == 0
    }

    /// Non-blocking poll: the oldest pending byte if one has arrived,
    /// nothing otherwise. Never waits.
    pub fn poll(&mut self) -> (r: Option<u8>)
        ensures
            old(self)@.len() == 0 ==> r is None && final(self)@ == old(self)@,
            old(self)@.len() > 0 ==> r == Some(old(self)@[0]) && final(self)@ == old(self)@.drop_first(),
    {
        if self.pending.len() == 0 {
            None
        } else {
            let byte = self.pending.remove(0);
            proof {
                assert(old(self)@.remove(0) =~= old(self)@.drop_first());
            }
            Some(byte)
        }
    }
}

} // verus!
