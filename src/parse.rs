use vstd::prelude::*;
use crate::stream::{ByteEvent, ByteStream};
use crate::{PpmLoadError, PpmLoadResult};

verus! {

/// Space and line feed are the only separators.
pub open spec fn spec_is_whitespace(byte: u8) -> bool {
    byte == 32u8 || byte == 10u8
}

/// ASCII `0` to `9`.
pub open spec fn spec_is_number(byte: u8) -> bool {
    48u8 <= byte && byte <= 57u8
}

/// The number of whitespace bytes at the front of `s`.
pub open spec fn leading_whitespace(s: Seq<u8>) -> nat
    decreases s.len(),
{
    if s.len() > 0 && spec_is_whitespace(s[0]) {
        1 + leading_whitespace(s.skip(1))
    } else {
        0
    }
}

/// The number of digit bytes at the front of `s`.
pub open spec fn leading_digits(s: Seq<u8>) -> nat
    decreases s.len(),
{
    if s.len() > 0 && spec_is_number(s[0]) {
        1 + leading_digits(s.skip(1))
    } else {
        0
    }
}

/// The values that a channel-value stream yields from the unread bytes `s` of a
/// source that reports `fault` at its end, while `acc` holds the value of the
/// digits of the current token read so far (`None` between tokens).
/// A failure is always the last item.
pub open spec fn lex(s: Seq<u8>, fault: Option<std::io::ErrorKind>, acc: Option<u32>) -> Seq<
    PpmLoadResult<u32>,
>
    decreases s.len(),
{
    if s.len() == 0 {
        match fault {
            Some(kind) => seq![Err(PpmLoadError::Io(kind))],
            None => match acc {
                Some(v) => seq![Ok(v)],
                None => seq![],
            },
        }
    } else if spec_is_number(s[0]) {
        let prev: int = match acc {
            Some(v) => v as int,
            None => 0,
        };
        let next = prev * 10 + (s[0] - 48u8);
        if next > u32::MAX {
            seq![Err(PpmLoadError::OverflowError)]
        } else {
            lex(s.skip(1), fault, Some(next as u32))
        }
    } else if spec_is_whitespace(s[0]) {
        match acc {
            Some(v) => seq![Ok(v)] + lex(s.skip(1), fault, None),
            None => lex(s.skip(1), fault, None),
        }
    } else {
        seq![Err(PpmLoadError::FormatError)]
    }
}

pub proof fn lemma_leading_whitespace_bound(s: Seq<u8>)
    ensures
        leading_whitespace(s) <= s.len(),
        leading_whitespace(s) < s.len() ==> !spec_is_whitespace(s[leading_whitespace(s) as int]),
    decreases s.len(),
{
    if s.len() > 0 && spec_is_whitespace(s[0]) {
        lemma_leading_whitespace_bound(s.skip(1));
    }
}

/// Leading whitespace does not change what the stream yields between tokens.
pub proof fn lemma_lex_skip_whitespace(s: Seq<u8>, fault: Option<std::io::ErrorKind>)
    ensures
        lex(s, fault, None) == lex(s.skip(leading_whitespace(s) as int), fault, None),
    decreases s.len(),
{
    lemma_leading_whitespace_bound(s);
    if s.len() > 0 && spec_is_whitespace(s[0]) {
        lemma_leading_whitespace_bound(s.skip(1));
        lemma_lex_skip_whitespace(s.skip(1), fault);
        assert(s.skip(1).skip(leading_whitespace(s.skip(1)) as int) =~= s.skip(
            leading_whitespace(s) as int,
        ));
    } else {
        assert(s.skip(0) =~= s);
    }
}

/// Whether `byte` separates tokens.
pub fn is_whitespace(byte: u8) -> (r: bool)
    ensures
        r == spec_is_whitespace(byte),
{
    byte == 32u8 || byte == 10u8
}

/// Whether `byte` is a decimal digit.
pub fn is_number(byte: u8) -> (r: bool)
    ensures
        r == spec_is_number(byte),
{
    48u8 <= byte && byte <= 57u8
}

/// Skips whitespace up to the next byte that starts a token.
/// Succeeds at a digit or at a clean end; fails at any other byte, and at a
/// read failure. The offending byte is left unread.
pub fn consume_whitespace(peekable: &mut ByteStream) -> (r: PpmLoadResult<()>)
    requires
        old(peekable).wf(),
    ensures
        final(peekable).wf(),
        final(peekable).end_fault() == old(peekable).end_fault(),
        ({
            let s = old(peekable).rest();
            let t = s.skip(leading_whitespace(s) as int);
            &&& final(peekable).rest() == t
            &&& t.len() > 0 && spec_is_number(t[0]) ==> r is Ok
            &&& t.len() > 0 && !spec_is_number(t[0]) ==> r == Err::<(), PpmLoadError>(
                PpmLoadError::FormatError,
            )
            &&& t.len() == 0 && old(peekable).end_fault() is None ==> r is Ok
            &&& t.len() == 0 && old(peekable).end_fault() is Some ==> r == Err::<
                (),
                PpmLoadError,
            >(PpmLoadError::Io(old(peekable).end_fault()->0))
        }),
{
    let ghost s = peekable.rest();
    proof {
        lemma_leading_whitespace_bound(s);
    }
    loop
        invariant
            peekable.wf(),
            peekable.end_fault() == old(peekable).end_fault(),
            s.skip(leading_whitespace(s) as int) == peekable.rest().skip(
                leading_whitespace(peekable.rest()) as int,
            ),
        ensures
            peekable.wf(),
            peekable.end_fault() == old(peekable).end_fault(),
            s.skip(leading_whitespace(s) as int) == peekable.rest(),
        decreases peekable.rest().len(),
    {
        let ghost cur = peekable.rest();
        proof {
            lemma_leading_whitespace_bound(cur);
            lemma_leading_whitespace_bound(cur.skip(1));
        }
        let at_whitespace = match peekable.peek() {
            ByteEvent::Byte(byte) => is_whitespace(byte),
            _ => false,
        };
        if !at_whitespace {
            assert(leading_whitespace(cur) == 0);
            assert(cur.skip(0) =~= cur);
            break;
        }
        peekable.advance();
        assert(leading_whitespace(cur) == 1 + leading_whitespace(cur.skip(1)));
        assert(cur.skip(1).skip(leading_whitespace(cur.skip(1)) as int) =~= cur.skip(
            leading_whitespace(cur) as int,
        ));
    }
    match peekable.peek() {
        ByteEvent::Byte(byte) => {
            if is_number(byte) {
                Ok(())
            } else {
                Err(PpmLoadError::FormatError)
            }
        },
        ByteEvent::End => Ok(()),
        ByteEvent::Fault(kind) => Err(PpmLoadError::Io(kind)),
    }
}

pub proof fn lemma_leading_digits_bound(s: Seq<u8>)
    ensures
        leading_digits(s) <= s.len(),
    decreases s.len(),
{
    if s.len() > 0 && spec_is_number(s[0]) {
        lemma_leading_digits_bound(s.skip(1));
    }
}

/// Moves the digits of the token at the front of the source into `buf`.
/// Succeeds when the digits end at whitespace, left unread, or at a clean end;
/// fails at any other byte, left unread, and at a read failure.
pub fn read_number(peekable: &mut ByteStream, buf: &mut Vec<u8>) -> (r: PpmLoadResult<()>)
    requires
        old(peekable).wf(),
    ensures
        final(peekable).wf(),
        final(peekable).end_fault() == old(peekable).end_fault(),
        ({
            let s = old(peekable).rest();
            let k = leading_digits(s) as int;
            let t = s.skip(k);
            &&& final(peekable).rest() == t
            &&& final(buf)@ == old(buf)@ + s.take(k)
            &&& t.len() > 0 && spec_is_whitespace(t[0]) ==> r is Ok
            &&& t.len() > 0 && !spec_is_whitespace(t[0]) ==> r == Err::<(), PpmLoadError>(
                PpmLoadError::FormatError,
            )
            &&& t.len() == 0 && old(peekable).end_fault() is None ==> r is Ok
            &&& t.len() == 0 && old(peekable).end_fault() is Some ==> r == Err::<
                (),
                PpmLoadError,
            >(PpmLoadError::Io(old(peekable).end_fault()->0))
        }),
{
    let ghost s = peekable.rest();
    proof {
        lemma_leading_digits_bound(s);
    }
    loop
        invariant
            peekable.wf(),
            peekable.end_fault() == old(peekable).end_fault(),
            0 <= s.len() - peekable.rest().len() <= leading_digits(s),
            peekable.rest() == s.skip(s.len() - peekable.rest().len()),
            leading_digits(s) == (s.len() - peekable.rest().len()) + leading_digits(
                peekable.rest(),
            ),
            buf@ == old(buf)@ + s.take(s.len() - peekable.rest().len()),
        ensures
            peekable.wf(),
            peekable.end_fault() == old(peekable).end_fault(),
            peekable.rest() == s.skip(leading_digits(s) as int),
            buf@ == old(buf)@ + s.take(leading_digits(s) as int),
        decreases peekable.rest().len(),
    {
        let ghost cur = peekable.rest();
        let ghost n = s.len() - cur.len();
        let digit = match peekable.peek() {
            ByteEvent::Byte(byte) => if is_number(byte) {
                Some(byte)
            } else {
                None
            },
            _ => None,
        };
        match digit {
            None => {
                assert(leading_digits(cur) == 0);
                break ;
            },
            Some(byte) => {
                peekable.advance();
                buf.push(byte);
                assert(leading_digits(cur) == 1 + leading_digits(cur.skip(1)));
                assert(s.take(n + 1) =~= s.take(n).push(byte));
                assert(cur.skip(1) =~= s.skip(n + 1));
            },
        }
    }
    match peekable.peek() {
        ByteEvent::Byte(byte) => {
            if is_whitespace(byte) {
                Ok(())
            } else {
                Err(PpmLoadError::FormatError)
            }
        },
        ByteEvent::End => Ok(()),
        ByteEvent::Fault(kind) => Err(PpmLoadError::Io(kind)),
    }
}

/// A stream never resynchronizes: a failure is the last thing it yields,
/// whatever bytes follow the offending one.
pub proof fn lemma_failure_is_last(
    s: Seq<u8>,
    fault: Option<std::io::ErrorKind>,
    acc: Option<u32>,
    i: int,
)
    requires
        0 <= i < lex(s, fault, acc).len(),
        lex(s, fault, acc)[i] is Err,
    ensures
        i == lex(s, fault, acc).len() - 1,
    decreases s.len(),
{
    if s.len() > 0 {
        if spec_is_number(s[0]) {
            let prev: int = match acc {
                Some(v) => v as int,
                None => 0,
            };
            let next = prev * 10 + (s[0] - 48u8);
            if next <= u32::MAX {
                lemma_failure_is_last(s.skip(1), fault, Some(next as u32), i);
            }
        } else if spec_is_whitespace(s[0]) {
            match acc {
                Some(v) => {
                    if i > 0 {
                        lemma_failure_is_last(s.skip(1), fault, None, i - 1);
                    }
                },
                None => {
                    lemma_failure_is_last(s.skip(1), fault, None, i);
                },
            }
        }
    }
}

/// A lazy stream of the unsigned integers in a P3 body. A token whose value
/// does not fit in a `u32` fails with `OverflowError` at the digit that
/// overflows. After it has yielded a failure it yields nothing more.
pub struct PpmChannelValues {
    bytes: ByteStream,
    is_finished: bool,
}

impl PpmChannelValues {
    pub closed spec fn wf(&self) -> bool {
        self.bytes.wf()
    }

    /// Everything the stream will still yield, in order.
    pub closed spec fn items(&self) -> Seq<PpmLoadResult<u32>> {
        if self.is_finished {
            seq![]
        } else {
            lex(self.bytes.rest(), self.bytes.end_fault(), None)
        }
    }

    pub fn new(bytes: ByteStream) -> (r: PpmChannelValues)
        requires
            bytes.wf(),
        ensures
            r.wf(),
            r.items() == lex(bytes.rest(), bytes.end_fault(), None),
    {
        PpmChannelValues { bytes, is_finished: false }
    }

    /// Yields the next value, or the failure that stops the stream, or `None`
    /// at a clean end.
    pub fn next(&mut self) -> (r: Option<PpmLoadResult<u32>>)
        requires
            old(self).wf(),
        ensures
            final(self).wf(),
            old(self).items().len() == 0 ==> r is None && final(self).items().len() == 0,
            old(self).items().len() > 0 ==> r == Some(old(self).items()[0]),
            old(self).items().len() > 0 ==> final(self).items() == old(self).items().skip(1),
            r matches Some(Err(_)) ==> final(self).items().len() == 0,
    {
        if self.is_finished {
            return None;
        }
        let ghost f = self.bytes.end_fault();
        let ghost orig = self.bytes.rest();
        proof {
            lemma_lex_skip_whitespace(orig, f);
        }
        proof {
            lemma_leading_whitespace_bound(orig);
        }
        match consume_whitespace(&mut self.bytes) {
            Err(err) => {
                let ghost t = self.bytes.rest();
                assert(t.len() > 0 ==> !spec_is_whitespace(t[0]));
                assert(lex(t, f, None) == seq![Err::<u32, PpmLoadError>(err)]);
                self.is_finished = true;
                return Some(Err(err));
            },
            Ok(()) => {},
        }
        let ghost start = self.bytes.rest();
        let mut output: u32 = 0;
        let mut emit_number: bool = false;
        let mut overflow: bool = false;
        loop
            invariant_except_break
                !overflow,
            invariant
                self.bytes.wf(),
                self.bytes.end_fault() == f,
                !self.is_finished,
                lex(orig, f, None) == lex(
                    self.bytes.rest(),
                    f,
                    if emit_number {
                        Some(output)
                    } else {
                        None
                    },
                ),
                !emit_number ==> self.bytes.rest() == start && output == 0,
                start.len() > 0 ==> spec_is_number(start[0]),
                start.len() == 0 ==> f is None,
            ensures
                self.bytes.wf(),
                self.bytes.end_fault() == f,
                !self.is_finished,
                overflow ==> lex(orig, f, None) == seq![
                    Err::<u32, PpmLoadError>(PpmLoadError::OverflowError),
                ],
                !overflow ==> lex(orig, f, None) == lex(
                    self.bytes.rest(),
                    f,
                    if emit_number {
                        Some(output)
                    } else {
                        None
                    },
                ),
                !overflow ==> self.bytes.rest().len() == 0 || !spec_is_number(
                    self.bytes.rest()[0],
                ),
                !overflow && !emit_number ==> self.bytes.rest().len() == 0 && f is None,
            decreases self.bytes.rest().len(),
        {
            let ghost cur = self.bytes.rest();
            let digit = match self.bytes.peek() {
                ByteEvent::Byte(byte) => if is_number(byte) {
                    Some(byte)
                } else {
                    None
                },
                _ => None,
            };
            match digit {
                None => {
                    break ;
                },
                Some(byte) => {
                    let next: u64 = (output as u64) * 10 + (byte - 48u8) as u64;
                    if next > u32::MAX as u64 {
                        assert(lex(
                            cur,
                            f,
                            if emit_number {
                                Some(output)
                            } else {
                                None
                            },
                        ) == seq![Err::<u32, PpmLoadError>(PpmLoadError::OverflowError)]);
                        overflow = true;
                        break ;
                    }
                    output = next as u32;
                    emit_number = true;
                    self.bytes.advance();
                },
            }
        }
        if overflow {
            self.is_finished = true;
            return Some(Err(PpmLoadError::OverflowError));
        }
        match self.bytes.peek() {
            ByteEvent::Byte(byte) => {
                if is_whitespace(byte) {
                    self.bytes.advance();
                    Some(Ok(output))
                } else {
                    self.is_finished = true;
                    Some(Err(PpmLoadError::FormatError))
                }
            },
            ByteEvent::End => {
                if emit_number {
                    Some(Ok(output))
                } else {
                    None
                }
            },
            ByteEvent::Fault(kind) => {
                self.is_finished = true;
                Some(Err(PpmLoadError::Io(kind)))
            },
        }
    }
}

} // verus!
