use std::borrow::Cow;
use std::marker::PhantomData;
use vstd::prelude::*;
use vstd::utf8::*;

use crate::protocol::adb_respond::AdbError;
use crate::protocol::wire::{
    decode_text, lossy_text, lossy_utf8, fail_word, frame, lemma_frame_roundtrip, okay_word, spec_parse_len, spec_status,
    status_of, Status,
};

verus! {

/// Reads the reply to an immediate command.
pub struct ImmCmdRespService;

/// The reader a reply to the command `C` is read from.
pub struct ImmCmdReq<C, R>(pub(crate) R, PhantomData<C>);

impl<C, R> ImmCmdReq<C, R> {
    pub(crate) fn new(reader: R) -> (r: Self)
        ensures
            r.reader() == reader,
    {
        ImmCmdReq(reader, PhantomData)
    }

    /// The reader wrapped.
    pub closed spec fn reader(&self) -> R {
        self.0
    }

    /// Wraps the reader a reply to `C` is read from.
    pub fn for_reader(reader: R) -> (r: Self)
        ensures
            r.reader() == reader,
    {
        Self::new(reader)
    }

    /// Gives back the reader.
    pub fn into_reader(self) -> (r: R)
        ensures
            r == self.reader(),
    {
        self.0
    }
}

/// Refusal law: a reply made of `FAIL` and a framed message of at most
/// 0xFFFF bytes is read as a refusal whose length header announces exactly
/// the message, which follows it and ends the reply.
pub proof fn lemma_refusal_reply(message: Seq<u8>)
    requires
        message.len() <= 0xFFFF,
    ensures
        ({
            let reply = fail_word() + frame(message);
            &&& spec_status(reply.take(4)) == Status::Fail
            &&& spec_parse_len(reply.subrange(4, 8)) == Some(message.len() as u16)
            &&& reply.skip(8) == message
        }),
{
    lemma_frame_roundtrip(message);
    let reply = fail_word() + frame(message);
    let f = frame(message);
    assert(reply.take(4) =~= fail_word());
    assert(fail_word() != okay_word()) by {
        assert(fail_word()[0] != okay_word()[0]);
    }
    assert(reply.subrange(4, 8) =~= f.take(4));
    assert(reply.skip(8) =~= f.skip(4));
}

/// What to do after the status word of a reply has been read.
pub enum ImmStep<E> {
    /// `OKAY`: the command's own handler reads the rest.
    Handle,
    /// `FAIL`: a length-prefixed message follows.
    ReadFailure,
    /// Any other word: the request ends with this error.
    Fail(AdbError<E>),
}

impl ImmCmdRespService {
    /// The step a status word calls for. Words other than `OKAY` and `FAIL`
    /// end the request with an `Unknown` error carrying the word as text
    /// (exactly its text when it is UTF-8, with invalid bytes replaced
    /// otherwise).
    pub fn on_status<E>(&self, status: [u8; 4]) -> (r: ImmStep<E>)
        ensures
            match spec_status(status@) {
                Status::Okay => r is Handle,
                Status::Fail => r is ReadFailure,
                Status::Other => r matches ImmStep::Fail(AdbError::Unknown(t)) && t@ == lossy_utf8(
                    status@,
                ) && (valid_utf8(status@) ==> t@ == decode_utf8(status@)),
            },
    {
        match status_of(status) {
            Status::Okay => ImmStep::Handle,
            Status::Fail => ImmStep::ReadFailure,
            Status::Other => {
                let text = lossy_text(&status);
                ImmStep::Fail(AdbError::Unknown(Cow::Owned(text)))
            },
        }
    }

    /// The error a refused request ends with: the server's message. Only
    /// UTF-8 messages are accepted.
    pub fn failure<E>(&self, message: &[u8]) -> (r: AdbError<E>)
        requires
            valid_utf8(message@),
        ensures
            r matches AdbError::Failure(s) && s@ == decode_utf8(message@),
    {
        AdbError::Failure(decode_text(message))
    }
}

} // verus!
