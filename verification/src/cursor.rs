//! A forward-only character reader with two characters of lookahead.

use vstd::prelude::*;
use vstd::utf8::*;
use crate::encoding::{
    byte_len, char_width, lemma_byte_len_step, lemma_byte_len_take, lemma_encoding_injective,
    spec_char_width,
};

verus! {

/// What `peek_first` and `peek_second` give when no character is left.
pub const EOF_CHAR: char = '\0';

/// The character of `s` at index `i`, or `EOF_CHAR` past its end.
pub open spec fn peek_at(s: Seq<char>, i: int) -> char {
    if 0 <= i < s.len() {
        s[i]
    } else {
        EOF_CHAR
    }
}

/// A reader that walks a text from front to back, one character at a
/// time, and counts the bytes it has read.
pub struct Cursor<'a> {
    /// Length in bytes of the text that the cursor was made for.
    input_len: usize,
    /// Length in bytes of what was left to read when the counter was last
    /// reset.
    len_remaining: usize,
    /// What is left to read.
    rest: &'a str,
}

impl<'a> Cursor<'a> {
    /// The text that has not been read yet.
    pub closed spec fn remaining(&self) -> Seq<char> {
        self.rest@
    }

    /// Number of bytes read since the counter was last reset.
    pub closed spec fn token_len(&self) -> nat {
        (self.len_remaining - byte_len(self.rest@)) as nat
    }

    /// Number of bytes read before the counter was last reset.
    pub closed spec fn token_start(&self) -> nat {
        (self.input_len - self.len_remaining) as nat
    }

    /// The counters agree with the text, and the whole input fits in `u32`.
    pub closed spec fn wf(&self) -> bool {
        &&& byte_len(self.rest@) <= self.len_remaining
        &&& self.len_remaining <= self.input_len
        &&& self.input_len <= u32::MAX
    }

    /// What a cursor has read and what it has left to read are together no
    /// longer than `u32::MAX` bytes, so that no count of bytes read is too
    /// large for a token's length.
    pub proof fn lemma_wf_bound(&self)
        requires
            self.wf(),
        ensures
            self.token_start() + self.token_len() + byte_len(self.remaining()) <= u32::MAX,
    {
    }

    /// A cursor at the front of `input`, with its counter at 0.
    pub fn new(input: &'a str) -> (cursor: Self)
        requires
            byte_len(input@) <= u32::MAX,
        ensures
            cursor.wf(),
            cursor.remaining() == input@,
            cursor.token_len() == 0,
            cursor.token_start() == 0,
    {
        Self { input_len: input.len(), len_remaining: input.len(), rest: input }
    }

    /// Returns the remaining input stream as str.
    pub fn as_str(&self) -> (rest: &'a str)
        ensures
            rest@ == self.remaining(),
    {
        self.rest
    }

    /// Peeks the next symbol from the input stream without consuming it.
    ///
    /// If requested position doesn't exist, `EOF_CHAR` is returned.
    #[inline]
    pub fn peek_first(&self) -> (c: char)
        ensures
            c == peek_at(self.remaining(), 0),
    {
        broadcast use vstd::string::group_string_axioms;
        let mut iter = self.rest.chars();
        match iter.next() {
            Some(c) => c,
            None => EOF_CHAR,
        }
    }

    /// Peeks the second next symbol from the input stream without consuming it.
    ///
    /// If requested position doesn't exist, `EOF_CHAR` is returned.
    pub fn peek_second(&self) -> (c: char)
        ensures
            c == peek_at(self.remaining(), 1),
    {
        broadcast use vstd::string::group_string_axioms;
        let mut iter = self.rest.chars();
        iter.next();
        match iter.next() {
            Some(c) => c,
            None => EOF_CHAR,
        }
    }

    /// Checks if there is nothing more to consume, i.e. reached the end-of-file.
    #[inline]
    pub fn is_eof(&self) -> (b: bool)
        ensures
            b == (self.remaining().len() == 0),
    {
        self.rest.is_empty()
    }

    /// Returns the next character of the input stream.
    pub fn next_char(&mut self) -> (c: Option<char>)
        requires
            old(self).wf(),
        ensures
            final(self).wf(),
            final(self).token_start() == old(self).token_start(),
            c == (if old(self).remaining().len() > 0 {
                Some(old(self).remaining()[0])
            } else {
                None
            }),
            c is None ==> *final(self) == *old(self),
            c is Some ==> final(self).remaining() == old(self).remaining().skip(1)
                && final(self).token_len() == old(self).token_len() + spec_char_width(c.unwrap()),
    {
        broadcast use vstd::string::group_string_axioms;
        let mut iter = self.rest.chars();
        match iter.next() {
            Some(c) => {
                let width = char_width(c);
                proof {
                    lemma_byte_len_step(self.rest@);
                }
                let (_, tail) = self.rest.split_at(width);
                proof {
                    lemma_encoding_injective(tail@, self.rest@.skip(1));
                }
                self.rest = tail;
                Some(c)
            },
            None => None,
        }
    }

    /// Goes to the next character while the predicate returns true or the end-of-file has
    /// been reached.
    #[inline]
    pub fn next_while<F: Fn(char) -> bool>(&mut self, predicate: F)
        requires
            old(self).wf(),
            forall|c: char| call_requires(predicate, (c,)),
        ensures
            final(self).wf(),
            final(self).token_start() == old(self).token_start(),
            exists|n: int|
                {
                    &&& 0 <= n <= old(self).remaining().len()
                    &&& #[trigger] old(self).remaining().skip(n) == final(self).remaining()
                    &&& final(self).token_len() == old(self).token_len() + byte_len(
                        old(self).remaining().take(n),
                    )
                    &&& forall|i: int|
                        0 <= i < n ==> call_ensures(
                            predicate,
                            (#[trigger] old(self).remaining()[i],),
                            true,
                        )
                    &&& n < old(self).remaining().len() ==> call_ensures(
                        predicate,
                        (old(self).remaining()[n],),
                        false,
                    )
                },
    {
        let ghost s = self.remaining();
        let ghost mut n: int = 0;
        proof {
            assert(s.skip(0) =~= s);
            assert(s.take(0) =~= Seq::<char>::empty());
        }
        loop
            invariant
                self.wf(),
                self.token_start() == old(self).token_start(),
                s == old(self).remaining(),
                0 <= n <= s.len(),
                s.skip(n) == self.remaining(),
                self.token_len() == old(self).token_len() + byte_len(s.take(n)),
                forall|c: char| call_requires(predicate, (c,)),
                forall|i: int| 0 <= i < n ==> call_ensures(predicate, (#[trigger] s[i],), true),
            ensures
                n < s.len() ==> call_ensures(predicate, (s[n],), false),
            decreases s.len() - n,
        {
            if !predicate(self.peek_first()) || self.is_eof() {
                break;
            }
            self.next_char();
            proof {
                lemma_byte_len_take(s, n);
                assert(s.skip(n).skip(1) =~= s.skip(n + 1));
                n = n + 1;
            }
        }
    }

    /// Returns the number of bytes consumed since the cursor was made.
    #[inline]
    pub fn offset(&self) -> (offset: usize)
        requires
            self.wf(),
        ensures
            offset == self.token_start() + self.token_len(),
    {
        self.input_len - self.rest.len()
    }

    /// Returns the number of bytes already consumed for the current token.
    #[inline]
    pub fn position_within_token(&self) -> (len: u32)
        requires
            self.wf(),
        ensures
            len == self.token_len(),
    {
        (self.len_remaining - self.rest.len()) as u32
    }

    /// Resets the number of bytes consumed to 0.
    #[inline]
    pub fn reset_position_within_token(&mut self)
        requires
            old(self).wf(),
        ensures
            final(self).wf(),
            final(self).remaining() == old(self).remaining(),
            final(self).token_len() == 0,
            final(self).token_start() == old(self).token_start() + old(self).token_len(),
    {
        self.len_remaining = self.rest.len();
    }
}

} // verus!
