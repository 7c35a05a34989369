use std::collections::VecDeque;
use vstd::prelude::*;

use crate::text::push_char;

verus! {

broadcast use vstd::std_specs::vecdeque::group_vec_dequeue_axioms;

/// The contents of a buffer holding `s`, with room for `max_size`
/// characters, after `c` is pushed: when full, the oldest character goes;
/// a buffer with room for nothing stays empty.
pub open spec fn pushed(s: Seq<char>, max_size: nat, c: char) -> Seq<char> {
    if max_size == 0 {
        s
    } else if s.len() >= max_size {
        s.drop_first().push(c)
    } else {
        s.push(c)
    }
}

/// The contents of a buffer that started as `s` after each character of
/// `typed` was pushed in turn.
pub open spec fn pushed_all(s: Seq<char>, max_size: nat, typed: Seq<char>) -> Seq<char>
    decreases typed.len(),
{
    if typed.len() == 0 {
        s
    } else {
        pushed(pushed_all(s, max_size, typed.drop_last()), max_size, typed.last())
    }
}

/// A rolling buffer of the last characters typed.
pub struct Buffer {
    data: VecDeque<char>,
    max_size: usize,
}

impl View for Buffer {
    type V = Seq<char>;

    /// The characters held, oldest first.
    closed spec fn view(&self) -> Seq<char> {
        self.data@
    }
}

impl Buffer {
    /// A buffer never holds more characters than it keeps.
    #[verifier::type_invariant]
    spec fn within_capacity(self) -> bool {
        self.data@.len() <= self.max_size
    }

    /// The number of characters the buffer keeps.
    pub closed spec fn capacity(&self) -> nat {
        self.max_size as nat
    }

    /// Creates an empty buffer that keeps the last `max_size` characters.
    pub fn new(max_size: usize) -> (b: Self)
        ensures
            b@ == Seq::<char>::empty(),
            b.capacity() == max_size,
            b@.len() <= b.capacity(),
    {
        Buffer { data: VecDeque::with_capacity(max_size), max_size }
    }

    /// Pushes a character; when the buffer is full the oldest one is dropped.
    pub fn push(&mut self, ch: char)
        ensures
            final(self)@ == pushed(old(self)@, old(self).capacity(), ch),
            final(self).capacity() == old(self).capacity(),
            final(self)@.len() <= final(self).capacity(),
    {
        proof {
            use_type_invariant(&*self);
        }
        if self.max_size == 0 {
            return;
        }
        let mut d: VecDeque<char> = VecDeque::new();
        std::mem::swap(&mut d, &mut self.data);
        if d.len() >= self.max_size {
            d.pop_front();
        }
        d.push_back(ch);
        self.data = d;
        proof {
            assert(self@ =~= pushed(old(self)@, old(self).capacity(), ch));
        }
    }

    /// The buffer's contents as a string.
    pub fn as_string(&self) -> (s: String)
        ensures
            s@ == self@,
    {
        self.suffix_from(0)
    }

    /// The characters from position `start` to the end, as a string.
    fn suffix_from(&self, start: usize) -> (s: String)
        requires
            start <= self@.len(),
        ensures
            s@ == self@.skip(start as int),
    {
        let mut s = String::new();
        let mut i = start;
        let n = self.data.len();
        while i < n
            invariant
                start <= i <= n == self@.len(),
                s@ == self@.subrange(start as int, i as int),
            decreases n - i,
        {
            push_char(&mut s, self.data[i]);
            i = i + 1;
            proof {
                assert(s@ =~= self@.subrange(start as int, i as int));
            }
        }
        proof {
            assert(self@.subrange(start as int, n as int) =~= self@.skip(start as int));
        }
        s
    }

    /// Removes every character.
    pub fn clear(&mut self)
        ensures
            final(self)@ == Seq::<char>::empty(),
            final(self).capacity() == old(self).capacity(),
            final(self)@.len() <= final(self).capacity(),
    {
        self.data = VecDeque::new();
    }

    /// The number of characters held.
    pub fn len(&self) -> (n: usize)
        ensures
            n == self@.len(),
            n <= self.capacity(),
    {
        proof {
            use_type_invariant(self);
        }
        self.data.len()
    }

    /// Whether the buffer holds no character.
    pub fn is_empty(&self) -> (b: bool)
        ensures
            b == (self@.len() == 0),
    {
        self.data.len() == 0
    }

    /// The last `n` characters (all of them when fewer are held).
    pub fn last_n(&self, n: usize) -> (s: String)
        ensures
            s@ == if self@.len() > n {
                self@.skip(self@.len() - n)
            } else {
                self@
            },
    {
        let len = self.data.len();
        let start = if len > n {
            len - n
        } else {
            0
        };
        let s = self.suffix_from(start);
        proof {
            assert(self@.skip(0) =~= self@);
        }
        s
    }
}

/// A buffer keeps exactly the last `max_size` characters typed into it;
/// one with room for nothing keeps none.
pub proof fn buffer_keeps_last_typed(max_size: nat, typed: Seq<char>)
    ensures
        pushed_all(Seq::empty(), max_size, typed) == if max_size == 0 {
            Seq::empty()
        } else if typed.len() > max_size {
            typed.skip(typed.len() - max_size)
        } else {
            typed
        },
    decreases typed.len(),
{
    if typed.len() > 0 {
        let init = typed.drop_last();
        buffer_keeps_last_typed(max_size, init);
        let before = pushed_all(Seq::empty(), max_size, init);
        if max_size == 0 {
        } else if init.len() > max_size {
            assert(before.drop_first().push(typed.last()) =~= typed.skip(typed.len() - max_size));
        } else if init.len() == max_size {
            assert(before.drop_first().push(typed.last()) =~= typed.skip(typed.len() - max_size));
        } else {
            assert(before.push(typed.last()) =~= typed);
        }
    }
}

/// One push into a buffer within its size, of at least one: the buffer then
/// holds the last `max_size` characters of its old contents followed by `c`,
/// and the oldest character goes only when the buffer was full.
pub proof fn push_keeps_last(s: Seq<char>, max_size: nat, c: char)
    requires
        s.len() <= max_size,
        max_size >= 1,
    ensures
        pushed(s, max_size, c) == if s.len() + 1 > max_size {
            s.push(c).skip(s.len() + 1 - max_size)
        } else {
            s.push(c)
        },
        pushed(s, max_size, c).len() == if s.len() + 1 > max_size {
            max_size as int
        } else {
            s.len() + 1int
        },
{
    if s.len() + 1 > max_size {
        assert(s.drop_first().push(c) =~= s.push(c).skip(1));
    }
}

/// Characters typed into a buffer that had room for them sit, in order, at
/// its end: the buffer then ends with the last `typed.len()` characters
/// typed, and never holds more than it keeps.
pub proof fn buffer_ends_with_typed(s: Seq<char>, max_size: nat, typed: Seq<char>)
    requires
        s.len() <= max_size,
        typed.len() <= max_size,
        max_size > 0,
    ensures
        ({
            let r = pushed_all(s, max_size, typed);
            &&& typed.len() <= r.len() <= max_size
            &&& r.subrange(r.len() - typed.len(), r.len() as int) == typed
        }),
    decreases typed.len(),
{
    let r = pushed_all(s, max_size, typed);
    if typed.len() == 0 {
        assert(r.subrange(r.len() as int, r.len() as int) =~= typed);
    } else {
        let init = typed.drop_last();
        buffer_ends_with_typed(s, max_size, init);
        let r0 = pushed_all(s, max_size, init);
        assert(r0.subrange(r0.len() - init.len(), r0.len() as int) == init);
        if r0.len() >= max_size && r0.len() > 0 {
            assert(r == r0.drop_first().push(typed.last()));
            assert forall|k: int| 0 <= k < typed.len() implies r.subrange(
                r.len() - typed.len(),
                r.len() as int,
            )[k] == typed[k] by {
                if k < init.len() {
                    assert(r0.subrange(r0.len() - init.len(), r0.len() as int)[k] == init[k]);
                }
            }
            assert(r.subrange(r.len() - typed.len(), r.len() as int) =~= typed);
        } else {
            assert(r == r0.push(typed.last()));
            assert forall|k: int| 0 <= k < typed.len() implies r.subrange(
                r.len() - typed.len(),
                r.len() as int,
            )[k] == typed[k] by {
                if k < init.len() {
                    assert(r0.subrange(r0.len() - init.len(), r0.len() as int)[k] == init[k]);
                }
            }
            assert(r.subrange(r.len() - typed.len(), r.len() as int) =~= typed);
        }
    }
}

} // verus!
