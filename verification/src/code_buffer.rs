//! A growable byte buffer used to assemble generated program text.
//!
//! The buffer holds raw bytes; its mathematical model is the byte sequence
//! held so far. Most printing operations keep the contents valid UTF-8, but
//! the `unchecked` entry points may append arbitrary bytes, so validity is a
//! precondition of the character-level operations rather than an invariant.

use vstd::prelude::*;
use vstd::string::StringSliceAdditionalSpecFns;
use vstd::utf8::*;

verus! {

/// A byte buffer for building generated code text.
#[derive(Debug, Clone)]
pub struct CodeBuffer {
    buf: Vec<u8>,
}

impl View for CodeBuffer {
    type V = Seq<u8>;

    closed spec fn view(&self) -> Seq<u8> {
        self.buf@
    }
}

/// Relies on `Vec::capacity`: a vector's capacity is at least its length.
#[verifier::external_body]
fn vec_capacity(v: &Vec<u8>) -> (r: usize)
    ensures
        r >= v@.len(),
{
    v.capacity()
}

/// Relies on `str::from_utf8`: it succeeds exactly on valid UTF-8 input and
/// returns the string whose byte encoding is that input.
#[verifier::external_body]
fn bytes_as_str(b: &[u8]) -> (r: Option<&str>)
    ensures
        r matches Some(s) ==> s.spec_bytes() == b@,
        r is Some <==> valid_utf8(b@),
{
    match core::str::from_utf8(b) {
        Ok(s) => Some(s),
        Err(_) => None,
    }
}

impl CodeBuffer {
    /// Creates a new, empty buffer.
    pub fn new() -> (r: Self)
        ensures
            r@ == Seq::<u8>::empty(),
    {
        CodeBuffer { buf: Vec::new() }
    }

    /// Creates an empty buffer with at least the given capacity preallocated.
    pub fn with_capacity(capacity: usize) -> (r: Self)
        ensures
            r@ == Seq::<u8>::empty(),
    {
        CodeBuffer { buf: Vec::with_capacity(capacity) }
    }

    /// Returns the number of bytes held.
    pub fn len(&self) -> (r: usize)
        ensures
            r == self@.len(),
    {
        self.buf.len()
    }

    /// Returns the buffer's current capacity in bytes.
    pub fn capacity(&self) -> (r: usize)
        ensures
            r >= self@.len(),
    {
        vec_capacity(&self.buf)
    }

    /// True when the buffer holds no bytes.
    pub fn is_empty(&self) -> (r: bool)
        ensures
            r == (self@.len() == 0),
    {
        self.buf.is_empty()
    }

    /// Ensures room for at least `additional` more bytes.
    pub fn reserve(&mut self, additional: usize)
        ensures
            final(self)@ == old(self)@,
    {
        self.buf.reserve(additional);
    }

    /// Returns the `n`-th byte counted from the end, if there is one.
    pub fn peek_nth_byte_back(&self, n: usize) -> (r: Option<u8>)
        ensures
            r == if n < self@.len() {
                Some(self@[self@.len() - 1 - n])
            } else {
                None::<u8>
            },
    {
        let len: usize = self.buf.len();
        if n < len {
            Some(self.buf[len - 1 - n])
        } else {
            None
        }
    }

    /// Returns the last byte, if there is one.
    pub fn last_byte(&self) -> (r: Option<u8>)
        ensures
            r == if self@.len() > 0 {
                Some(self@[self@.len() - 1])
            } else {
                None::<u8>
            },
    {
        self.peek_nth_byte_back(0)
    }

    /// Returns the `n`-th character counted from the end of the decoded
    /// contents, if there is one.
    pub fn peek_nth_char_back(&self, n: usize) -> (r: Option<char>)
        requires
            valid_utf8(self@),
        ensures
            r == if n < decode_utf8(self@).len() {
                Some(decode_utf8(self@)[decode_utf8(self@).len() - 1 - n])
            } else {
                None::<char>
            },
    {
        match bytes_as_str(self.buf.as_slice()) {
            Some(s) => {
                proof {
                    encode_utf8_decode_utf8(s@);
                }
                let l: usize = vstd::string::StrSliceExecFns::unicode_len(s);
                if n < l {
                    Some(vstd::string::StrSliceExecFns::get_char(s, l - 1 - n))
                } else {
                    None
                }
            },
            None => {
                proof {
                    assert(false);
                }
                None
            },
        }
    }

    /// Returns the last character of the decoded contents, if there is one.
    pub fn last_char(&self) -> (r: Option<char>)
        requires
            valid_utf8(self@),
        ensures
            r == if decode_utf8(self@).len() > 0 {
                Some(decode_utf8(self@)[decode_utf8(self@).len() - 1])
            } else {
                None::<char>
            },
    {
        self.peek_nth_char_back(0)
    }

    /// Appends one byte from the ASCII range.
    pub fn print_ascii_byte(&mut self, byte: u8)
        requires
            byte <= 0x7f,
        ensures
            final(self)@ == old(self)@.push(byte),
    {
        self.buf.push(byte);
    }

    /// Appends one byte without any range restriction; the caller is
    /// responsible for overall encoding validity.
    pub fn print_byte_unchecked(&mut self, byte: u8)
        ensures
            final(self)@ == old(self)@.push(byte),
    {
        self.buf.push(byte);
    }

    /// Appends the UTF-8 encoding of one character.
    pub fn print_char(&mut self, ch: char)
        ensures
            final(self)@ == old(self)@ + encode_utf8(seq![ch]),
    {
        proof {
            char_is_scalar(ch);
            let cs = seq![ch];
            assert(cs[0] == ch);
            assert(cs.drop_first() =~= Seq::<char>::empty());
            assert(encode_utf8(cs) == encode_scalar(ch as u32) + encode_utf8(
                Seq::<char>::empty(),
            ));
            assert(encode_utf8(cs) =~= encode_scalar(ch as u32));
        }
        let s: u32 = ch as u32;
        if s <= 0x7F {
            self.buf.push((s & 0x7F) as u8);
            proof {
                assert(final(self)@ =~= old(self)@ + encode_scalar(s));
            }
        } else if s <= 0x7FF {
            self.buf.push(0xC0u8 | (((s >> 6) & 0x1F) as u8));
            self.buf.push(0x80u8 | ((s & 0x3F) as u8));
            proof {
                assert(final(self)@ =~= old(self)@ + encode_scalar(s));
            }
        } else if s <= 0xFFFF {
            self.buf.push(0xE0u8 | (((s >> 12) & 0x0F) as u8));
            self.buf.push(0x80u8 | (((s >> 6) & 0x3F) as u8));
            self.buf.push(0x80u8 | ((s & 0x3F) as u8));
            proof {
                assert(final(self)@ =~= old(self)@ + encode_scalar(s));
            }
        } else {
            self.buf.push(0xF0u8 | (((s >> 18) & 0x7) as u8));
            self.buf.push(0x80u8 | (((s >> 12) & 0x3F) as u8));
            self.buf.push(0x80u8 | (((s >> 6) & 0x3F) as u8));
            self.buf.push(0x80u8 | ((s & 0x3F) as u8));
            proof {
                assert(final(self)@ =~= old(self)@ + encode_scalar(s));
            }
        }
    }

    /// Appends the bytes of a string.
    pub fn print_str(&mut self, s: &str)
        ensures
            final(self)@ == old(self)@ + s.spec_bytes(),
    {
        let bytes: &[u8] = s.as_bytes();
        let mut i: usize = 0;
        while i < bytes.len()
            invariant
                i <= bytes@.len(),
                bytes@ == s.spec_bytes(),
                self@ == old(self)@ + bytes@.subrange(0, i as int),
            decreases bytes@.len() - i,
        {
            self.buf.push(bytes[i]);
            i += 1;
            proof {
                assert(old(self)@ + bytes@.subrange(0, i - 1) + seq![bytes@[i - 1]] =~= old(
                    self,
                )@ + bytes@.subrange(0, i as int));
            }
        }
        proof {
            assert(bytes@.subrange(0, bytes@.len() as int) =~= bytes@);
        }
    }

    /// Appends a run of bytes that must all lie in the ASCII range.
    pub fn print_ascii_bytes(&mut self, bytes: &[u8])
        requires
            forall|i: int| 0 <= i < bytes@.len() ==> bytes@[i] <= 0x7f,
        ensures
            final(self)@ == old(self)@ + bytes@,
    {
        let mut i: usize = 0;
        while i < bytes.len()
            invariant
                i <= bytes@.len(),
                self@ == old(self)@ + bytes@.subrange(0, i as int),
            decreases bytes@.len() - i,
        {
            self.buf.push(bytes[i]);
            i += 1;
            proof {
                assert(old(self)@ + bytes@.subrange(0, i - 1) + seq![bytes@[i - 1]] =~= old(
                    self,
                )@ + bytes@.subrange(0, i as int));
            }
        }
        proof {
            assert(bytes@.subrange(0, bytes@.len() as int) =~= bytes@);
        }
    }

    /// Appends a slice of bytes without any range restriction.
    pub fn print_bytes_unchecked(&mut self, bytes: &[u8])
        ensures
            final(self)@ == old(self)@ + bytes@,
    {
        let mut i: usize = 0;
        while i < bytes.len()
            invariant
                i <= bytes@.len(),
                self@ == old(self)@ + bytes@.subrange(0, i as int),
            decreases bytes@.len() - i,
        {
            self.buf.push(bytes[i]);
            i += 1;
            proof {
                assert(old(self)@ + bytes@.subrange(0, i - 1) + seq![bytes@[i - 1]] =~= old(
                    self,
                )@ + bytes@.subrange(0, i as int));
            }
        }
        proof {
            assert(bytes@.subrange(0, bytes@.len() as int) =~= bytes@);
        }
    }

    /// Appends a whole vector of bytes without any range restriction.
    pub fn print_bytes_iter_unchecked(&mut self, bytes: Vec<u8>)
        ensures
            final(self)@ == old(self)@ + bytes@,
    {
        self.print_bytes_unchecked(bytes.as_slice());
    }

    /// Appends `n` tab characters.
    pub fn print_indent(&mut self, n: usize)
        ensures
            final(self)@ == old(self)@ + Seq::<u8>::new(n as nat, |i: int| 9u8),
    {
        let mut i: usize = 0;
        while i < n
            invariant
                i <= n,
                self@ == old(self)@ + Seq::<u8>::new(i as nat, |j: int| 9u8),
            decreases n - i,
        {
            self.buf.push(9u8);
            i += 1;
            proof {
                assert(old(self)@ + Seq::<u8>::new((i - 1) as nat, |j: int| 9u8) + seq![9u8] =~= old(
                    self,
                )@ + Seq::<u8>::new(i as nat, |j: int| 9u8));
            }
        }
    }

    /// Returns the underlying bytes.
    pub fn as_bytes(&self) -> (r: &[u8])
        ensures
            r@ == self@,
    {
        self.buf.as_slice()
    }

    /// Consumes the buffer and returns its contents as a string. The contents
    /// must be valid UTF-8; the printing operations other than the `unchecked`
    /// ones only ever append valid UTF-8.
    pub fn into_string(self) -> (r: String)
        requires
            valid_utf8(self@),
        ensures
            r@ == decode_utf8(self@),
            encode_utf8(r@) == self@,
    {
        match bytes_as_str(self.buf.as_slice()) {
            Some(s) => {
                proof {
                    encode_utf8_decode_utf8(s@);
                }
                s.to_owned()
            },
            None => {
                proof {
                    assert(false);
                }
                String::new()
            },
        }
    }
}

impl Default for CodeBuffer {
    fn default() -> (r: Self)
        ensures
            r@ == Seq::<u8>::empty(),
    {
        CodeBuffer { buf: Vec::new() }
    }
}

} // verus!
