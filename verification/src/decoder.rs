//! Finishing a decode together with the signature engine.
//!
//! The engine builds its signature object from 64 compact bytes, and may
//! refuse them. It is not part of this library: the decoder says what is to
//! be built next, the caller has the engine build it and reports back whether
//! the engine accepted the bytes. Whatever the input, the object is built at
//! least once before the decoder finishes, so the caller never holds an
//! object that was not built.

use crate::big_endian::{significant, zeros};
use crate::parse::{
    ecdsa_signature_parse_der_lax, lax_verdict, signature_fields, LaxOutcome, Verdict,
};
use crate::signature::{lemma_compact_by_bytes, CompactSignature};
use vstd::prelude::*;

verus! {

/// What the caller is to do next.
#[derive(Clone, Copy, Debug, PartialEq, Eq)]
pub enum Request {
    /// Have the engine build the signature object from these bytes, then
    /// step the decoder with the engine's answer.
    Construct(CompactSignature),
    /// Stop. The flag is the result of decoding; the signature object is the
    /// one that was built last.
    Finish(bool),
}

/// A `Request` as a mathematical value.
pub enum RequestView {
    /// Build the signature object from these bytes.
    Construct(Seq<u8>),
    /// Stop with this result.
    Finish(bool),
}

impl View for Request {
    type V = RequestView;

    open spec fn view(&self) -> RequestView {
        match self {
            Request::Construct(sig) => RequestView::Construct(sig@),
            Request::Finish(success) => RequestView::Finish(*success),
        }
    }
}

/// Where a decode stands.
#[derive(Clone, Copy, Debug, PartialEq, Eq)]
pub enum LaxDecoder {
    /// The all-zero signature is being built; the input has not been looked at.
    Priming,
    /// The decoded signature is being built.
    Submitting,
    /// The all-zero signature is being built again, after an overflow or
    /// after the engine refused the decoded signature.
    Resetting,
    /// Decoding is over, with this result.
    Finished(bool),
}

impl LaxDecoder {
    /// The state after `self`, once the engine has answered `accepted` to the
    /// last request, for an input that decodes to `verdict`.
    pub open spec fn next_state(self, verdict: Verdict, accepted: bool) -> LaxDecoder {
        match self {
            LaxDecoder::Priming => match verdict {
                Verdict::Malformed => LaxDecoder::Finished(false),
                Verdict::Overflow => LaxDecoder::Resetting,
                Verdict::Decoded(_) => LaxDecoder::Submitting,
            },
            LaxDecoder::Submitting => if accepted {
                LaxDecoder::Finished(true)
            } else {
                LaxDecoder::Resetting
            },
            LaxDecoder::Resetting => LaxDecoder::Finished(true),
            LaxDecoder::Finished(success) => LaxDecoder::Finished(success),
        }
    }

    /// What is asked of the caller on entering `self`, for an input that
    /// decodes to `verdict`.
    pub open spec fn request(self, verdict: Verdict) -> RequestView {
        match self {
            LaxDecoder::Priming => RequestView::Construct(zeros(64)),
            LaxDecoder::Submitting => RequestView::Construct(verdict.compact()),
            LaxDecoder::Resetting => RequestView::Construct(zeros(64)),
            LaxDecoder::Finished(success) => RequestView::Finish(success),
        }
    }

    /// Starts a decode: the first thing to build is the all-zero signature.
    pub fn begin() -> (start: (LaxDecoder, Request))
        ensures
            start.0 == LaxDecoder::Priming,
            start.1@ == RequestView::Construct(zeros(64)),
    {
        (LaxDecoder::Priming, Request::Construct(CompactSignature::zero()))
    }

    /// Takes the engine's answer to the last request and says what is next.
    ///
    /// `accepted` is the engine's answer; it is not looked at after a request
    /// for the all-zero signature. `input` is the signature to decode, the
    /// same at every step of one decode.
    pub fn step(self, input: &[u8], accepted: bool) -> (next: (LaxDecoder, Request))
        ensures
            next.0 == self.next_state(lax_verdict(input@), accepted),
            next.1@ == next.0.request(lax_verdict(input@)),
    {
        match self {
            LaxDecoder::Priming => match ecdsa_signature_parse_der_lax(input) {
                LaxOutcome::Malformed => (LaxDecoder::Finished(false), Request::Finish(false)),
                LaxOutcome::Overflow => (
                    LaxDecoder::Resetting,
                    Request::Construct(CompactSignature::zero()),
                ),
                LaxOutcome::Decoded(sig) => (LaxDecoder::Submitting, Request::Construct(sig)),
            },
            LaxDecoder::Submitting => if accepted {
                (LaxDecoder::Finished(true), Request::Finish(true))
            } else {
                (LaxDecoder::Resetting, Request::Construct(CompactSignature::zero()))
            },
            LaxDecoder::Resetting => (LaxDecoder::Finished(true), Request::Finish(true)),
            LaxDecoder::Finished(success) => (
                LaxDecoder::Finished(success),
                Request::Finish(success),
            ),
        }
    }
}

/// What a whole decode comes to, for an input that decodes to `verdict` and
/// an engine that answers `accepts` to the decoded signature: the result
/// reported, and the bytes that the signature object is built from last.
///
/// A malformed input fails; an overflow and a refusal by the engine both
/// succeed. In all three the object is the all-zero signature.
pub open spec fn settled(verdict: Verdict, accepts: bool) -> (bool, Seq<u8>) {
    match verdict {
        Verdict::Malformed => (false, zeros(64)),
        Verdict::Overflow => (true, zeros(64)),
        Verdict::Decoded(bytes) => (
            true,
            if accepts {
                bytes
            } else {
                zeros(64)
            },
        ),
    }
}

/// The decode from `state` on, run against an engine that answers
/// `engine(bytes)` when asked to build from `bytes`: the result reported and
/// the bytes that the object was last built from, `built` if nothing more is
/// built. `None` if the decode is not over after `steps` requests to build.
pub open spec fn run(
    state: LaxDecoder,
    built: Seq<u8>,
    verdict: Verdict,
    engine: spec_fn(Seq<u8>) -> bool,
    steps: nat,
) -> Option<(bool, Seq<u8>)>
    decreases steps,
{
    match state.request(verdict) {
        RequestView::Finish(success) => Some((success, built)),
        RequestView::Construct(bytes) => if steps == 0 {
            None
        } else {
            run(
                state.next_state(verdict, engine(bytes)),
                bytes,
                verdict,
                engine,
                (steps - 1) as nat,
            )
        },
    }
}

/// Every decode is over after at most three requests to build, whatever the
/// engine answers, and comes to what `settled` says.
pub proof fn lemma_run_settles(verdict: Verdict, engine: spec_fn(Seq<u8>) -> bool, built: Seq<u8>)
    ensures
        run(LaxDecoder::Priming, built, verdict, engine, 3) == Some(
            settled(verdict, engine(verdict.compact())),
        ),
{
    reveal_with_fuel(run, 4);
}

/// An input with the shape of a signature in which `R` or `S` has more than
/// 32 bytes behind its leading zero bytes decodes with success, and the
/// signature object is the all-zero one, whatever the engine answers.
pub proof fn lemma_overflow_settles_on_zero(
    input: Seq<u8>,
    engine: spec_fn(Seq<u8>) -> bool,
    built: Seq<u8>,
)
    requires
        signature_fields(input) matches Some((r, s)) && (significant(r).len() > 32 || significant(
            s,
        ).len() > 32),
    ensures
        run(LaxDecoder::Priming, built, lax_verdict(input), engine, 3) == Some((true, zeros(64))),
{
    let (r, s) = signature_fields(input).unwrap();
    lemma_compact_by_bytes(r, s);
    lemma_run_settles(lax_verdict(input), engine, built);
}

} // verus!
