//! Recording a terminal job result in the session, so that an interrupted
//! run resumes where it stopped.
use vstd::prelude::*;
use crate::chars::fit_usize;
use crate::protocol::{
    JobStatus, TtsResult, chapter_of_job_id, chunk_of_job_id, parse_chapter_from_job_id,
    parse_chunk_from_job_id,
};
use crate::session::{
    ChunkStatus, Session, chunks_after_completion, find_chunk, mark_chunk_complete,
    mark_chunk_error,
};

verus! {

/// `new` is `old` with an error recorded on chunk `(ch, ck)`, where present.
pub open spec fn error_recorded(
    old_chunks: Seq<ChunkStatus>,
    new_chunks: Seq<ChunkStatus>,
    ch: usize,
    ck: usize,
    msg: Seq<char>,
) -> bool {
    let k = find_chunk(old_chunks, ch, ck);
    if k < 0 {
        new_chunks == old_chunks
    } else {
        let c = old_chunks[k];
        &&& new_chunks.len() == old_chunks.len()
        &&& forall|j: int|
            0 <= j < old_chunks.len() && j != k ==> new_chunks[j] == #[trigger] old_chunks[j]
        &&& new_chunks[k].error matches Some(e) && e@ == msg
        &&& !new_chunks[k].completed
        &&& new_chunks[k].audio_path == c.audio_path
        &&& new_chunks[k].chapter_id == c.chapter_id
        &&& new_chunks[k].chunk_id == c.chunk_id
    }
}

/// The error text recorded for a result that produced no local audio.
pub open spec fn failure_text(r: TtsResult) -> Seq<char> {
    match r.error {
        Some(e) => e@,
        None => "unknown error"@,
    }
}

/// Records a terminal result in the session, found by the chapter and chunk
/// its job identifier carries. A completed result whose audio was fetched to
/// `local_audio` marks the chunk completed; any other result, including a
/// completed one whose audio could not be fetched, records an error and
/// leaves the chunk to be synthesized again on the next run. Returns whether
/// the identifier named a chunk; the session is unchanged when it did not.
pub fn record_result(session: &mut Session, result: &TtsResult, local_audio: Option<&str>) -> (r: bool)
    ensures
        r == (fit_usize(chapter_of_job_id(result.job_id@)) is Some && fit_usize(
            chunk_of_job_id(result.job_id@),
        ) is Some),
        !r ==> *final(session) == *old(session),
        r ==> ({
            let ch = fit_usize(chapter_of_job_id(result.job_id@))->0;
            let ck = fit_usize(chunk_of_job_id(result.job_id@))->0;
            if result.status == JobStatus::Completed && local_audio is Some {
                exists|p: String|
                    p@ == local_audio->0@ && final(session).chunks@ == chunks_after_completion(
                        old(session).chunks@,
                        ch,
                        ck,
                        p,
                    )
            } else {
                error_recorded(
                    old(session).chunks@,
                    final(session).chunks@,
                    ch,
                    ck,
                    failure_text(*result),
                )
            }
        }),
{
    let ch = match parse_chapter_from_job_id(result.job_id.as_str()) {
        Some(c) => c,
        None => {
            return false;
        },
    };
    let ck = match parse_chunk_from_job_id(result.job_id.as_str()) {
        Some(c) => c,
        None => {
            return false;
        },
    };
    match (result.status, local_audio) {
        (JobStatus::Completed, Some(path)) => {
            mark_chunk_complete(session, ch, ck, path);
        },
        _ => {
            let msg = match &result.error {
                Some(e) => e.as_str(),
                None => "unknown error",
            };
            mark_chunk_error(session, ch, ck, msg);
        },
    }
    true
}

} // verus!
