//! The per-tile fetch-with-retry policy.
//!
//! Fetching one tile is a loop of attempts. Each attempt either fails —
//! transport, body read, undecodable bytes, or a decoded raster of the
//! wrong size — or succeeds with a decoded tile. A failed attempt is
//! retried after a fixed delay until the retry ceiling is reached, at which
//! point the tile resolves to a terminal `RetryExhausted` carrying the last
//! classification. The loop itself performs network I/O and sleeps, so a
//! driver runs it; each of its decisions is `retry_step`, and `retry_run`
//! states what a whole run of it resolves to.

use vstd::prelude::*;

use crate::error::{FailureKind, StreetViewError, SvResult};
use crate::raster::Raster;
use crate::tiles::{Tile, TILE_HEIGHT, TILE_WIDTH};

verus! {

/// How many times a failed tile fetch is retried before it becomes
/// terminal; the ceiling, not the attempt count, which is one more.
pub const DEFAULT_MAX_RETRIES: u32 = 6;

/// Fixed pause between attempts, in seconds; no backoff, no jitter.
pub const RETRY_DELAY_SECS: u64 = 2;

/// What `image::load_from_memory` followed by `to_rgb8` makes of a byte
/// string: the decoded raster's dimensions and packed RGB bytes, or `None`
/// when the bytes are not a valid image. A function of the bytes alone.
pub uninterp spec fn decoded_rgb(bytes: Seq<u8>) -> Option<(nat, nat, Seq<u8>)>;

/// Relies on `image::load_from_memory` and `image::DynamicImage::to_rgb8`:
/// decoding is deterministic in the bytes, distinguishes malformed input by
/// failing, and a decoded image converts to a packed buffer of exactly
/// three bytes per pixel.
#[verifier::external_body]
fn decode_rgb(bytes: &Vec<u8>) -> (r: Option<Raster>)
    ensures
        match r {
            Some(img) => img.wf() && decoded_rgb(bytes@) == Some(
                ((img.width as nat, img.height as nat, img.data@)),
            ),
            None => decoded_rgb(bytes@) is None,
        },
{
    match image::load_from_memory(bytes) {
        Ok(img) => {
            let rgb = img.to_rgb8();
            let (width, height) = (rgb.width(), rgb.height());
            Some(Raster { width, height, data: rgb.into_raw() })
        },
        Err(_) => None,
    }
}

/// Decode the bytes of one tile. Succeeds exactly when the bytes decode to
/// a raster of the fixed tile size; undecodable bytes classify as `Decode`,
/// a decoded raster of any other size as `WrongDimensions`.
pub fn decode_tile_image(bytes: &Vec<u8>) -> (r: Result<Raster, FailureKind>)
    ensures
        match r {
            Ok(img) => {
                &&& decoded_rgb(bytes@) == Some(
                    ((TILE_WIDTH as nat, TILE_HEIGHT as nat, img.data@)),
                )
                &&& img.wf()
                &&& img.width == TILE_WIDTH
                &&& img.height == TILE_HEIGHT
            },
            Err(k) => match k {
                FailureKind::Decode => decoded_rgb(bytes@) is None,
                FailureKind::WrongDimensions => decoded_rgb(bytes@) is Some && !(decoded_rgb(
                    bytes@,
                )->Some_0.0 == TILE_WIDTH && decoded_rgb(bytes@)->Some_0.1 == TILE_HEIGHT),
                _ => false,
            },
        },
{
    match decode_rgb(bytes) {
        Some(img) => {
            if img.width == TILE_WIDTH && img.height == TILE_HEIGHT {
                Ok(img)
            } else {
                Err(FailureKind::WrongDimensions)
            }
        },
        None => Err(FailureKind::Decode),
    }
}

/// What one fetch attempt came to: a classified failure, or the decoded
/// tile raster.
pub enum AttemptOutcome {
    Failure(FailureKind),
    Success(Raster),
}

/// What the retry loop does after one attempt: hand the tile out, give up
/// with a terminal error, or pause and try again.
pub enum RetryStep {
    Done(Raster),
    Fail(StreetViewError),
    RetryAfter(u64),
}

/// The retry decision after an attempt, `retries` failures having come
/// before it: success resolves the tile; a failure at the ceiling becomes
/// terminal with `retries + 1` attempts made; any other failure waits the
/// fixed delay and retries.
pub open spec fn spec_retry_step(retries: int, outcome: AttemptOutcome, max_retries: int) -> RetryStep {
    match outcome {
        AttemptOutcome::Success(img) => RetryStep::Done(img),
        AttemptOutcome::Failure(k) => {
            if retries >= max_retries {
                RetryStep::Fail(
                    StreetViewError::RetryExhausted { attempts: (retries + 1) as u32, last: k },
                )
            } else {
                RetryStep::RetryAfter(RETRY_DELAY_SECS)
            }
        },
    }
}

/// One decision of the per-tile retry loop.
pub fn retry_step(retries: u32, outcome: AttemptOutcome, max_retries: u32) -> (s: RetryStep)
    requires
        retries < u32::MAX,
    ensures
        s == spec_retry_step(retries as int, outcome, max_retries as int),
{
    match outcome {
        AttemptOutcome::Success(img) => RetryStep::Done(img),
        AttemptOutcome::Failure(k) => {
            if retries >= max_retries {
                RetryStep::Fail(
                    StreetViewError::RetryExhausted { attempts: retries + 1, last: k },
                )
            } else {
                RetryStep::RetryAfter(RETRY_DELAY_SECS)
            }
        },
    }
}

/// What a run of the retry loop resolves to when its attempts come out as
/// `outcomes` says, `retries` failures having happened already: the first
/// step that is not a retry, or `None` if the outcomes run out first.
pub open spec fn retry_run(outcomes: Seq<AttemptOutcome>, retries: int, max_retries: int) -> Option<
    RetryStep,
>
    decreases outcomes.len(),
{
    if outcomes.len() == 0 {
        None
    } else {
        match spec_retry_step(retries, outcomes[0], max_retries) {
            RetryStep::RetryAfter(_) => retry_run(outcomes.drop_first(), retries + 1, max_retries),
            step => Some(step),
        }
    }
}

proof fn lemma_retry_succeeds_aux(
    outcomes: Seq<AttemptOutcome>,
    retries: int,
    n: int,
    max_retries: int,
    img: Raster,
)
    requires
        0 <= retries,
        0 <= n,
        retries + n <= max_retries,
        outcomes.len() == n + 1,
        forall|i: int| 0 <= i < n ==> outcomes[i] is Failure,
        outcomes[n] == AttemptOutcome::Success(img),
    ensures
        retry_run(outcomes, retries, max_retries) == Some(RetryStep::Done(img)),
    decreases n,
{
    if n == 0 {
    } else {
        assert(outcomes[0] is Failure);
        lemma_retry_succeeds_aux(outcomes.drop_first(), retries + 1, n - 1, max_retries, img);
    }
}

/// A tile source that fails `n` times and then succeeds, `n` within the
/// retry ceiling, resolves to the decoded tile — on attempt `n + 1`.
pub proof fn lemma_retry_succeeds_after_failures(
    outcomes: Seq<AttemptOutcome>,
    n: int,
    max_retries: u32,
    img: Raster,
)
    requires
        0 <= n <= max_retries,
        outcomes.len() == n + 1,
        forall|i: int| 0 <= i < n ==> outcomes[i] is Failure,
        outcomes[n] == AttemptOutcome::Success(img),
    ensures
        retry_run(outcomes, 0, max_retries as int) == Some(RetryStep::Done(img)),
{
    lemma_retry_succeeds_aux(outcomes, 0, n, max_retries as int, img);
}

proof fn lemma_retry_exhausted_aux(
    outcomes: Seq<AttemptOutcome>,
    retries: int,
    max_retries: int,
)
    requires
        0 <= retries <= max_retries,
        max_retries < u32::MAX,
        outcomes.len() == max_retries - retries + 1,
        forall|i: int| 0 <= i < outcomes.len() ==> outcomes[i] is Failure,
    ensures
        retry_run(outcomes, retries, max_retries) == Some(
            RetryStep::Fail(
                StreetViewError::RetryExhausted {
                    attempts: (max_retries + 1) as u32,
                    last: outcomes.last()->Failure_0,
                },
            ),
        ),
    decreases max_retries - retries,
{
    if retries == max_retries {
        assert(outcomes[0] is Failure);
    } else {
        assert(outcomes[0] is Failure);
        lemma_retry_exhausted_aux(outcomes.drop_first(), retries + 1, max_retries);
        assert(outcomes.drop_first().last() == outcomes.last());
    }
}

/// Gather per-tile results into the complete tile set, or resolve the whole
/// download to its first terminal error: either every result is good and
/// all tiles come back in order, or the error of the first failed tile
/// comes back and no partial set is surfaced.
pub fn collect_tile_results(results: Vec<Result<Tile, StreetViewError>>) -> (r: SvResult<
    Vec<Tile>,
>)
    ensures
        match r {
            Ok(tiles) => {
                &&& forall|i: int| 0 <= i < results@.len() ==> (#[trigger] results@[i]) is Ok
                &&& tiles@.len() == results@.len()
                &&& forall|i: int|
                    0 <= i < results@.len() ==> #[trigger] tiles@[i] == results@[i]->Ok_0
            },
            Err(e) => exists|i: int|
                {
                    &&& 0 <= i < results@.len()
                    &&& (#[trigger] results@[i]) is Err
                    &&& e == results@[i]->Err_0
                    &&& forall|j: int| 0 <= j < i ==> (#[trigger] results@[j]) is Ok
                },
        },
{
    let ghost orig = results@;
    let n = results.len();
    let mut rest = results;
    let mut tiles: Vec<Tile> = Vec::new();
    let mut k: usize = 0;
    while rest.len() > 0
        invariant
            orig == results@,
            orig.len() == n,
            orig.len() == k + rest@.len(),
            forall|i: int| 0 <= i < rest@.len() ==> #[trigger] rest@[i] == orig[k + i],
            tiles@.len() == k,
            forall|i: int|
                0 <= i < k ==> (#[trigger] orig[i]) is Ok && tiles@[i] == orig[i]->Ok_0,
        decreases rest@.len(),
    {
        let ghost kk = k as int;
        let item = rest.remove(0);
        proof {
            assert(item == orig[kk]);
        }
        match item {
            Ok(t) => {
                tiles.push(t);
            },
            Err(e) => {
                proof {
                    assert((results@[kk]) is Err && e == results@[kk]->Err_0 && (forall|j: int|
                        0 <= j < kk ==> (#[trigger] results@[j]) is Ok));
                }
                return Err(e);
            },
        }
        k = k + 1;
    }
    proof {
        assert(k == orig.len());
        assert forall|i: int| 0 <= i < results@.len() implies (#[trigger] results@[i]) is Ok by {
            assert(orig[i] is Ok);
        }
        assert forall|i: int|
            0 <= i < results@.len() implies #[trigger] tiles@[i] == results@[i]->Ok_0 by {
            assert(orig[i] is Ok && tiles@[i] == orig[i]->Ok_0);
        }
    }
    Ok(tiles)
}

/// A tile source that keeps failing resolves to `RetryExhausted` after
/// exactly `max_retries + 1` attempts — seven with the default ceiling —
/// carrying the classification of the last attempt.
pub proof fn lemma_retry_exhausted(outcomes: Seq<AttemptOutcome>, max_retries: u32)
    requires
        max_retries < u32::MAX,
        outcomes.len() == max_retries + 1,
        forall|i: int| 0 <= i < outcomes.len() ==> outcomes[i] is Failure,
    ensures
        retry_run(outcomes, 0, max_retries as int) == Some(
            RetryStep::Fail(
                StreetViewError::RetryExhausted {
                    attempts: (max_retries + 1) as u32,
                    last: outcomes.last()->Failure_0,
                },
            ),
        ),
{
    lemma_retry_exhausted_aux(outcomes, 0, max_retries as int);
}

} // verus!
