//! The keyboard input buffer: a bounded FIFO of raw key bytes fed by the
//! serial interrupt and drained by the stdin resource, with the line
//! editor that turns key bytes into a line of input.
//!
//! The buffer itself is `crossbeam_queue::ArrayQueue`, used through
//! trusted wrappers whose contracts name what the queue holds.

use vstd::prelude::*;

use crossbeam_queue::ArrayQueue;

verus! {

/// Carriage return: ends a line.
pub const KEY_ENTER: u8 = 0x0D;

/// Backspace.
pub const KEY_BACKSPACE: u8 = 0x08;

/// Delete, treated like backspace.
pub const KEY_DELETE: u8 = 0x7F;

/// Capacity of the input buffer in keys.
pub const INPUT_BUF_SIZE: usize = 128;

#[verifier::external_type_specification]
#[verifier::external_body]
#[verifier::reject_recursive_types(T)]
pub struct ExArrayQueue<T>(ArrayQueue<T>);

/// The keys held by an input queue, oldest first.
pub uninterp spec fn queue_contents(q: ArrayQueue<u8>) -> Seq<u8>;

/// The fixed capacity an input queue was created with.
pub uninterp spec fn queue_capacity(q: ArrayQueue<u8>) -> nat;

/// Relies on crossbeam_queue::ArrayQueue::new: an empty queue of the
/// given capacity. `new` panics on capacity zero, so that is excluded.
#[verifier::external_body]
fn queue_new(cap: usize) -> (r: ArrayQueue<u8>)
    requires
        1 <= cap <= 0x1000_0000,
    ensures
        queue_contents(r) == Seq::<u8>::empty(),
        queue_capacity(r) == cap,
{
    ArrayQueue::new(cap)
}

/// Relies on crossbeam_queue::ArrayQueue::push_mut: appends at the tail
/// unless the queue is full, in which case the value is rejected.
#[verifier::external_body]
fn queue_push(q: &mut ArrayQueue<u8>, value: u8) -> (r: bool)
    ensures
        queue_capacity(*final(q)) == queue_capacity(*old(q)),
        r == (queue_contents(*old(q)).len() < queue_capacity(*old(q))),
        r ==> queue_contents(*final(q)) == queue_contents(*old(q)).push(value),
        !r ==> queue_contents(*final(q)) == queue_contents(*old(q)),
{
    q.push_mut(value).is_ok()
}

/// Relies on crossbeam_queue::ArrayQueue::pop_mut: removes and returns
/// the oldest element, or `None` when the queue is empty.
#[verifier::external_body]
fn queue_pop(q: &mut ArrayQueue<u8>) -> (r: Option<u8>)
    ensures
        queue_capacity(*final(q)) == queue_capacity(*old(q)),
        match r {
            Some(v) => {
                &&& queue_contents(*old(q)).len() > 0
                &&& v == queue_contents(*old(q))[0]
                &&& queue_contents(*final(q)) == queue_contents(*old(q)).drop_first()
            },
            None => {
                &&& queue_contents(*old(q)).len() == 0
                &&& queue_contents(*final(q)) == queue_contents(*old(q))
            },
        },
{
    q.pop_mut()
}

/// The line the editor produces from `keys` starting from `line`:
/// ordinary keys are appended, backspace deletes, and the first carriage
/// return is appended and ends the line.
pub open spec fn spec_line(line: Seq<char>, keys: Seq<u8>) -> Seq<char>
    decreases keys.len(),
{
    if keys.len() == 0 {
        line
    } else if keys[0] == KEY_ENTER {
        line.push(KEY_ENTER as char)
    } else if keys[0] == KEY_BACKSPACE || keys[0] == KEY_DELETE {
        spec_line(
            if line.len() > 0 {
                line.drop_last()
            } else {
                line
            },
            keys.drop_first(),
        )
    } else {
        spec_line(line.push(keys[0] as char), keys.drop_first())
    }
}

/// The keys left in the buffer once the editor consumed a line: the
/// suffix after the first carriage return.
pub open spec fn spec_line_rest(keys: Seq<u8>) -> Seq<u8>
    decreases keys.len(),
{
    if keys.len() == 0 {
        Seq::empty()
    } else if keys[0] == KEY_ENTER {
        keys.drop_first()
    } else {
        spec_line_rest(keys.drop_first())
    }
}

/// The bounded FIFO between the serial interrupt and stdin.
pub struct InputBuffer {
    queue: ArrayQueue<u8>,
}

impl InputBuffer {
    /// The keys currently buffered, oldest first.
    pub closed spec fn contents(self) -> Seq<u8> {
        queue_contents(self.queue)
    }

    /// The buffer's capacity.
    pub closed spec fn capacity(self) -> nat {
        queue_capacity(self.queue)
    }

    /// The buffer never holds more than its capacity, and the capacity
    /// is the standard one.
    pub open spec fn wf(self) -> bool {
        self.contents().len() <= self.capacity() && self.capacity() == INPUT_BUF_SIZE
    }

    /// An empty buffer of the standard capacity.
    pub fn new() -> (r: InputBuffer)
        ensures
            r.wf(),
            r.contents() == Seq::<u8>::empty(),
            r.capacity() == INPUT_BUF_SIZE,
    {
        InputBuffer { queue: queue_new(INPUT_BUF_SIZE) }
    }

    /// Appends a key; a key arriving at a full buffer is dropped.
    pub fn push_key(&mut self, key: u8)
        requires
            old(self).wf(),
        ensures
            final(self).wf(),
            final(self).capacity() == old(self).capacity(),
            old(self).contents().len() < old(self).capacity() ==> final(self).contents()
                == old(self).contents().push(key),
            old(self).contents().len() >= old(self).capacity() ==> final(self).contents()
                == old(self).contents(),
    {
        let _ = queue_push(&mut self.queue, key);
    }

    /// Removes and returns the oldest key, if any.
    pub fn try_pop_key(&mut self) -> (r: Option<u8>)
        requires
            old(self).wf(),
        ensures
            final(self).wf(),
            final(self).capacity() == old(self).capacity(),
            match r {
                Some(v) => {
                    &&& old(self).contents().len() > 0
                    &&& v == old(self).contents()[0]
                    &&& final(self).contents() == old(self).contents().drop_first()
                },
                None => {
                    &&& old(self).contents().len() == 0
                    &&& final(self).contents() == old(self).contents()
                },
            },
    {
        queue_pop(&mut self.queue)
    }

    /// The oldest key, or 0 when the buffer is empty.
    pub fn get_char_as_u8(&mut self) -> (r: u8)
        requires
            old(self).wf(),
        ensures
            final(self).wf(),
            final(self).capacity() == old(self).capacity(),
            old(self).contents().len() == 0 ==> r == 0 && final(self).contents() == old(
                self,
            ).contents(),
            old(self).contents().len() > 0 ==> r == old(self).contents()[0]
                && final(self).contents() == old(self).contents().drop_first(),
    {
        match self.try_pop_key() {
            Some(key) => key,
            None => 0,
        }
    }

    /// Consumes keys until a carriage return and returns the edited
    /// line, the carriage return included. Spins while the buffer is
    /// empty, so a line is only produced once one was typed.
    pub fn get_line(&mut self) -> (r: String)
        requires
            old(self).wf(),
            old(self).contents().contains(KEY_ENTER),
        ensures
            final(self).wf(),
            final(self).capacity() == old(self).capacity(),
            r@ == spec_line(Seq::<char>::empty(), old(self).contents()),
            final(self).contents() == spec_line_rest(old(self).contents()),
    {
        let mut line = String::new();
        let mut nchars: usize = 0;
        loop
            invariant
                old(self).wf(),
                self.wf(),
                self.capacity() == old(self).capacity(),
                self.contents().contains(KEY_ENTER),
                nchars == line@.len(),
                nchars + self.contents().len() <= old(self).contents().len(),
                spec_line(line@, self.contents()) == spec_line(
                    Seq::<char>::empty(),
                    old(self).contents(),
                ),
                spec_line_rest(self.contents()) == spec_line_rest(old(self).contents()),
            decreases self.contents().len(),
        {
            let ghost pre = self.contents();
            if let Some(key) = self.try_pop_key() {
                proof {
                    assert(pre[0] == key);
                    assert(pre.drop_first() == self.contents());
                }
                if key == KEY_ENTER {
                    line.push(KEY_ENTER as char);
                    return line;
                } else if key == KEY_BACKSPACE || key == KEY_DELETE {
                    if nchars > 0 {
                        line.pop();
                        nchars = nchars - 1;
                    }
                } else {
                    line.push(key as char);
                    nchars = nchars + 1;
                }
                proof {
                    if !(pre.drop_first().contains(KEY_ENTER)) {
                        let i = choose|i: int| 0 <= i < pre.len() && pre[i] == KEY_ENTER;
                        assert(pre.drop_first()[i - 1] == KEY_ENTER);
                    }
                }
            }
        }
    }
}

/// Relies on alloc::string::String::push: appends one character.
pub assume_specification [ String::push ](s: &mut String, ch: char)
    ensures
        final(s)@ == old(s)@.push(ch),
;

/// Relies on alloc::string::String::pop: removes and returns the last
/// character, if any.
pub assume_specification [ String::pop ](s: &mut String) -> (r: Option<char>)
    ensures
        match r {
            Some(c) => old(s)@.len() > 0 && c == old(s)@.last() && final(s)@ == old(
                s,
            )@.drop_last(),
            None => old(s)@.len() == 0 && final(s)@ == old(s)@,
        },
;

} // verus!
