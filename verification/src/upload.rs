//! The upload handler: processes the parts of a multipart upload
//! request in order. A part without a usable file name is skipped; a
//! part whose payload could not be read, or whose file could not be
//! written, aborts the whole request, and files written earlier in the
//! request stay. The destination of each written part is its file name
//! with a disambiguation token spliced in front of the extension.
//!
//! The outcomes of the outside world — whether each payload was read
//! and whether each write succeeded — enter as inputs, so the
//! pipeline's behaviour is pinned for every pattern of failure.
//!
//! The parts are whatever the multipart reader yielded before it
//! stopped: malformed framing ends the sequence early and is, by
//! design, indistinguishable here from a request that simply has no
//! further parts.

use vstd::prelude::*;
use crate::naming::base_name;
use crate::naming::base_of;
use crate::naming::compose;
use crate::naming::dest_name;
use crate::naming::is_token;
use crate::naming::lemma_distinct_tokens_distinct_targets;
use crate::naming::split_name;
use crate::Status;
use crate::admits;
use crate::admits_body;

verus! {

/// One part of an upload request, as the multipart reader hands it
/// over: its original file name, if it carried one, and its payload.
/// `data` is `None` when reading the payload failed.
pub struct UploadPart {
    pub file_name: Option<String>,
    pub data: Option<Vec<u8>>,
}

/// A file as the pipeline writes it: destination name and content.
pub struct SavedFile {
    pub name: String,
    pub content: Vec<u8>,
}

/// Outcome of an upload request: a status for the response and the
/// files written, in the order they were written.
pub struct UploadOutcome {
    pub status: Status,
    pub files: Vec<SavedFile>,
}

/// A part that will be written: its file name has a non-empty last
/// path component. A part with no file name, an empty one, or one
/// ending in a path separator is skipped.
pub open spec fn usable_name(p: UploadPart) -> bool {
    match p.file_name {
        Some(n) => base_of(n@).len() > 0,
        None => false,
    }
}

/// The file name a part carries; empty when it carries none.
pub open spec fn spec_file_name(p: UploadPart) -> Seq<char> {
    match p.file_name {
        Some(n) => n@,
        None => Seq::empty(),
    }
}

/// The payload a part carries; empty when the read failed.
pub open spec fn spec_data(p: UploadPart) -> Seq<u8> {
    match p.data {
        Some(d) => d@,
        None => Seq::empty(),
    }
}

/// How many of the parts from index `i` on carry a usable file name:
/// an upper bound on the tokens and writes the request consumes.
pub open spec fn count_usable_from(parts: Seq<UploadPart>, i: int) -> nat
    decreases parts.len() - i,
{
    if i < 0 || i >= parts.len() {
        0
    } else if usable_name(parts[i]) {
        1 + count_usable_from(parts, i + 1)
    } else {
        count_usable_from(parts, i + 1)
    }
}

/// How many parts of the request carry a usable file name.
pub open spec fn count_usable(parts: Seq<UploadPart>) -> nat {
    count_usable_from(parts, 0)
}

/// What processing the parts from index `i` on yields, with `k` tokens
/// and writes already consumed: the files written from there on, and
/// whether processing ran to the end. A part without a usable name is
/// passed over; a failed read or a failed write stops processing on
/// the spot, so no later file appears.
pub open spec fn upload_from(
    parts: Seq<UploadPart>,
    i: int,
    tokens: Seq<Seq<char>>,
    k: int,
    write_ok: Seq<bool>,
) -> (Seq<(Seq<char>, Seq<u8>)>, bool)
    decreases parts.len() - i,
{
    if i < 0 || i >= parts.len() {
        (Seq::empty(), true)
    } else if !usable_name(parts[i]) {
        upload_from(parts, i + 1, tokens, k, write_ok)
    } else if parts[i].data is None {
        (Seq::empty(), false)
    } else if 0 <= k < write_ok.len() && write_ok[k] {
        let rest = upload_from(parts, i + 1, tokens, k + 1, write_ok);
        (
            seq![(dest_name(spec_file_name(parts[i]), tokens[k]), spec_data(parts[i]))] + rest.0,
            rest.1,
        )
    } else {
        (Seq::empty(), false)
    }
}

/// What processing a whole request yields: the files written, in
/// order, and whether every part reached a terminal outcome.
pub open spec fn upload_of(
    parts: Seq<UploadPart>,
    tokens: Seq<Seq<char>>,
    write_ok: Seq<bool>,
) -> (Seq<(Seq<char>, Seq<u8>)>, bool) {
    upload_from(parts, 0, tokens, 0, write_ok)
}

/// The name and content of each saved file, in order.
pub open spec fn file_views(v: Seq<SavedFile>) -> Seq<(Seq<char>, Seq<u8>)> {
    v.map_values(|f: SavedFile| (f.name@, f.content@))
}

/// The texts of a vector of owned tokens.
pub open spec fn token_views(v: Seq<String>) -> Seq<Seq<char>> {
    v.map_values(|t: String| t@)
}

fn clone_bytes(v: &Vec<u8>) -> (r: Vec<u8>)
    ensures
        r@ == v@,
{
    let r = v.clone();
    proof {
        assert forall|i: int| 0 <= i < v@.len() implies r@[i] == v@[i] by {
            assert(vstd::pervasive::cloned::<u8>(v@[i], r@[i]));
        }
        assert(r@ =~= v@);
    }
    r
}

/// Processes the parts of an upload request in order, against the
/// given token source and the given write outcomes: part `j` of the
/// writes succeeds exactly when `write_ok[j]`. Returns the files
/// written and a status that is `Success` exactly when no read or
/// write failed.
pub fn process_upload(parts: &Vec<UploadPart>, tokens: &Vec<String>, write_ok: &Vec<bool>) -> (r:
    UploadOutcome)
    requires
        tokens@.len() >= count_usable(parts@),
        write_ok@.len() >= count_usable(parts@),
    ensures
        file_views(r.files@) == upload_of(parts@, token_views(tokens@), write_ok@).0,
        (r.status == Status::Success) == upload_of(parts@, token_views(tokens@), write_ok@).1,
        r.status == Status::Success || r.status == Status::ServerError,
{
    let ghost toks = token_views(tokens@);
    let mut files: Vec<SavedFile> = Vec::new();
    let mut i: usize = 0;
    let mut k: usize = 0;
    while i < parts.len()
        invariant
            i <= parts@.len(),
            toks == token_views(tokens@),
            k + count_usable_from(parts@, i as int) <= tokens@.len(),
            k + count_usable_from(parts@, i as int) <= write_ok@.len(),
            upload_of(parts@, toks, write_ok@).0 == file_views(files@) + upload_from(
                parts@,
                i as int,
                toks,
                k as int,
                write_ok@,
            ).0,
            upload_of(parts@, toks, write_ok@).1 == upload_from(
                parts@,
                i as int,
                toks,
                k as int,
                write_ok@,
            ).1,
        decreases parts@.len() - i,
    {
        let p = &parts[i];
        match (&p.file_name, &p.data) {
            (Some(n), Some(d)) => {
                let base = base_name(n.as_str());
                if !base.as_str().is_empty() {
                    let tlen = tokens.len();
                    proof {
                        assert(usable_name(parts@[i as int]));
                        assert(count_usable_from(parts@, i as int) == 1 + count_usable_from(
                            parts@,
                            i + 1,
                        ));
                        assert(k < tlen);
                    }
                    if write_ok[k] {
                        let (stem, ext) = split_name(n.as_str());
                        let name = compose(stem.as_str(), tokens[k].as_str(), ext.as_str());
                        let content = clone_bytes(d);
                        let ghost prev = files@;
                        files.push(SavedFile { name, content });
                        proof {
                            let head = (dest_name(spec_file_name(parts@[i as int]), toks[k as int]),
                                spec_data(parts@[i as int]));
                            assert(file_views(files@) =~= file_views(prev).push(head));
                            assert(file_views(prev) + (seq![head] + upload_from(
                                parts@,
                                i + 1,
                                toks,
                                k + 1,
                                write_ok@,
                            ).0) =~= file_views(files@) + upload_from(
                                parts@,
                                i + 1,
                                toks,
                                k + 1,
                                write_ok@,
                            ).0);
                        }
                        k = k + 1;
                    } else {
                        proof {
                            assert(file_views(files@) + Seq::<(Seq<char>, Seq<u8>)>::empty()
                                =~= file_views(files@));
                        }
                        return UploadOutcome { status: Status::ServerError, files };
                    }
                } else {
                    assert(!usable_name(parts@[i as int]));
                }
            },
            (Some(n), None) => {
                let base = base_name(n.as_str());
                if !base.as_str().is_empty() {
                    proof {
                        assert(usable_name(parts@[i as int]));
                        assert(file_views(files@) + Seq::<(Seq<char>, Seq<u8>)>::empty()
                            =~= file_views(files@));
                    }
                    return UploadOutcome { status: Status::ServerError, files };
                } else {
                    assert(!usable_name(parts@[i as int]));
                }
            },
            _ => {
                assert(!usable_name(parts@[i as int]));
            },
        }
        i = i + 1;
    }
    proof {
        assert(file_views(files@) + Seq::<(Seq<char>, Seq<u8>)>::empty() =~= file_views(files@));
    }
    UploadOutcome { status: Status::Success, files }
}

/// Handles an upload request under the body size guard: an oversized
/// body is turned away before any part is looked at and no file is
/// written; otherwise the parts are processed as `process_upload`
/// says.
pub fn handle_upload(
    limit: Option<u64>,
    body_len: u64,
    parts: &Vec<UploadPart>,
    tokens: &Vec<String>,
    write_ok: &Vec<bool>,
) -> (r: UploadOutcome)
    requires
        admits(body_len, limit) ==> tokens@.len() >= count_usable(parts@) && write_ok@.len()
            >= count_usable(parts@),
    ensures
        !admits(body_len, limit) ==> r.status == Status::PayloadTooLarge && r.files@.len() == 0,
        admits(body_len, limit) ==> r.status == Status::Success || r.status == Status::ServerError,
        admits(body_len, limit) ==> file_views(r.files@) == upload_of(
            parts@,
            token_views(tokens@),
            write_ok@,
        ).0 && (r.status == Status::Success) == upload_of(
            parts@,
            token_views(tokens@),
            write_ok@,
        ).1,
{
    if !admits_body(body_len, limit) {
        UploadOutcome { status: Status::PayloadTooLarge, files: Vec::new() }
    } else {
        process_upload(parts, tokens, write_ok)
    }
}

proof fn lemma_success_from(
    parts: Seq<UploadPart>,
    tokens: Seq<Seq<char>>,
    write_ok: Seq<bool>,
    i: int,
    k: int,
)
    requires
        0 <= i <= parts.len(),
        0 <= k,
        k + (parts.len() - i) <= tokens.len(),
        k + (parts.len() - i) <= write_ok.len(),
        forall|j: int|
            i <= j < parts.len() ==> usable_name(#[trigger] parts[j]) && parts[j].data is Some,
        forall|j: int| k <= j < k + (parts.len() - i) ==> #[trigger] write_ok[j],
    ensures
        upload_from(parts, i, tokens, k, write_ok).1,
        upload_from(parts, i, tokens, k, write_ok).0.len() == parts.len() - i,
        forall|j: int|
            0 <= j < parts.len() - i ==> #[trigger] upload_from(parts, i, tokens, k, write_ok).0[j]
                == (dest_name(spec_file_name(parts[i + j]), tokens[k + j]), spec_data(
                parts[i + j],
            )),
    decreases parts.len() - i,
{
    if i < parts.len() {
        lemma_success_from(parts, tokens, write_ok, i + 1, k + 1);
        let head = (dest_name(spec_file_name(parts[i]), tokens[k]), spec_data(parts[i]));
        let rest = upload_from(parts, i + 1, tokens, k + 1, write_ok);
        assert(upload_from(parts, i, tokens, k, write_ok).0 == seq![head] + rest.0);
        assert forall|j: int| 0 <= j < parts.len() - i implies #[trigger] upload_from(
            parts,
            i,
            tokens,
            k,
            write_ok,
        ).0[j] == (dest_name(spec_file_name(parts[i + j]), tokens[k + j]), spec_data(
            parts[i + j],
        )) by {
            if j > 0 {
                assert((seq![head] + rest.0)[j] == rest.0[j - 1]);
            }
        }
    }
}

/// A request whose parts all carry usable file names, whose reads all
/// succeed and whose writes all succeed runs to the end and writes
/// exactly one file per part, in part order, each named from its
/// part's file name and the token of its turn, each byte-identical to
/// its part's payload.
pub proof fn lemma_upload_full_success(
    parts: Seq<UploadPart>,
    tokens: Seq<Seq<char>>,
    write_ok: Seq<bool>,
)
    requires
        forall|j: int|
            0 <= j < parts.len() ==> usable_name(#[trigger] parts[j]) && parts[j].data is Some,
        tokens.len() >= parts.len(),
        write_ok.len() >= parts.len(),
        forall|j: int| 0 <= j < parts.len() ==> #[trigger] write_ok[j],
    ensures
        upload_of(parts, tokens, write_ok).1,
        upload_of(parts, tokens, write_ok).0.len() == parts.len(),
        forall|j: int|
            0 <= j < parts.len() ==> #[trigger] upload_of(parts, tokens, write_ok).0[j] == (
            dest_name(spec_file_name(parts[j]), tokens[j]), spec_data(parts[j])),
{
    lemma_success_from(parts, tokens, write_ok, 0, 0);
}

/// With tokens from the hexadecimal alphabet and no token drawn
/// twice, a fully successful request of N file-bearing parts yields N
/// files under pairwise distinct destination names: none overwrites
/// another.
pub proof fn lemma_full_success_distinct_names(
    parts: Seq<UploadPart>,
    tokens: Seq<Seq<char>>,
    write_ok: Seq<bool>,
)
    requires
        forall|j: int|
            0 <= j < parts.len() ==> usable_name(#[trigger] parts[j]) && parts[j].data is Some,
        tokens.len() >= parts.len(),
        write_ok.len() >= parts.len(),
        forall|j: int| 0 <= j < parts.len() ==> #[trigger] write_ok[j],
        forall|j: int| 0 <= j < parts.len() ==> is_token(#[trigger] tokens[j]),
        forall|j1: int, j2: int|
            #![trigger tokens[j1], tokens[j2]]
            0 <= j1 < j2 < parts.len() ==> tokens[j1] != tokens[j2],
    ensures
        upload_of(parts, tokens, write_ok).0.len() == parts.len(),
        forall|j1: int, j2: int|
            #![trigger upload_of(parts, tokens, write_ok).0[j1], upload_of(parts, tokens, write_ok).0[j2]]
            0 <= j1 < j2 < parts.len() ==> upload_of(parts, tokens, write_ok).0[j1].0 != upload_of(
                parts,
                tokens,
                write_ok,
            ).0[j2].0,
{
    lemma_upload_full_success(parts, tokens, write_ok);
    assert forall|j1: int, j2: int|
        #![trigger upload_of(parts, tokens, write_ok).0[j1], upload_of(parts, tokens, write_ok).0[j2]]
        0 <= j1 < j2 < parts.len() implies upload_of(parts, tokens, write_ok).0[j1].0
        != upload_of(parts, tokens, write_ok).0[j2].0 by {
        lemma_distinct_tokens_distinct_targets(
            spec_file_name(parts[j1]),
            tokens[j1],
            spec_file_name(parts[j2]),
            tokens[j2],
        );
    }
}

proof fn lemma_remove_shift(
    parts: Seq<UploadPart>,
    tokens: Seq<Seq<char>>,
    write_ok: Seq<bool>,
    j: int,
    k: int,
    idx: int,
)
    requires
        0 <= idx < parts.len(),
        idx <= j,
    ensures
        upload_from(parts.remove(idx), j, tokens, k, write_ok) == upload_from(
            parts,
            j + 1,
            tokens,
            k,
            write_ok,
        ),
    decreases parts.len() - j,
{
    let q = parts.remove(idx);
    if j < q.len() {
        assert(q[j] == parts[j + 1]);
        lemma_remove_shift(parts, tokens, write_ok, j + 1, k, idx);
        lemma_remove_shift(parts, tokens, write_ok, j + 1, k + 1, idx);
    }
}

proof fn lemma_skip_prefix(
    parts: Seq<UploadPart>,
    tokens: Seq<Seq<char>>,
    write_ok: Seq<bool>,
    i: int,
    k: int,
    idx: int,
)
    requires
        0 <= i <= idx < parts.len(),
        !usable_name(parts[idx]),
    ensures
        upload_from(parts, i, tokens, k, write_ok) == upload_from(
            parts.remove(idx),
            i,
            tokens,
            k,
            write_ok,
        ),
    decreases idx - i,
{
    let q = parts.remove(idx);
    if i == idx {
        assert(upload_from(parts, i, tokens, k, write_ok) == upload_from(
            parts,
            i + 1,
            tokens,
            k,
            write_ok,
        ));
        lemma_remove_shift(parts, tokens, write_ok, i, k, idx);
    } else {
        assert(q[i] == parts[i]);
        lemma_skip_prefix(parts, tokens, write_ok, i + 1, k, idx);
        lemma_skip_prefix(parts, tokens, write_ok, i + 1, k + 1, idx);
    }
}

/// A part without a usable file name produces no file and does not
/// affect the processing of the other parts: a request with it comes
/// out exactly as the same request without it.
pub proof fn lemma_unusable_part_skipped(
    parts: Seq<UploadPart>,
    tokens: Seq<Seq<char>>,
    write_ok: Seq<bool>,
    idx: int,
)
    requires
        0 <= idx < parts.len(),
        !usable_name(parts[idx]),
    ensures
        upload_of(parts, tokens, write_ok) == upload_of(parts.remove(idx), tokens, write_ok),
{
    if idx == 0 {
        lemma_remove_shift(parts, tokens, write_ok, 0, 0, 0);
    } else {
        lemma_skip_prefix(parts, tokens, write_ok, 0, 0, idx);
    }
}

proof fn lemma_write_failure_from(
    parts: Seq<UploadPart>,
    tokens: Seq<Seq<char>>,
    write_ok: Seq<bool>,
    f: int,
    i: int,
)
    requires
        forall|j: int|
            0 <= j < parts.len() ==> usable_name(#[trigger] parts[j]) && parts[j].data is Some,
        tokens.len() >= parts.len(),
        write_ok.len() >= parts.len(),
        0 <= i <= f < parts.len(),
        forall|j: int| i <= j < f ==> #[trigger] write_ok[j],
        !write_ok[f],
    ensures
        !upload_from(parts, i, tokens, i, write_ok).1,
        upload_from(parts, i, tokens, i, write_ok).0.len() == f - i,
        forall|j: int|
            0 <= j < f - i ==> #[trigger] upload_from(parts, i, tokens, i, write_ok).0[j] == (
            dest_name(spec_file_name(parts[i + j]), tokens[i + j]), spec_data(parts[i + j])),
    decreases f - i,
{
    if i < f {
        lemma_write_failure_from(parts, tokens, write_ok, f, i + 1);
        let head = (dest_name(spec_file_name(parts[i]), tokens[i]), spec_data(parts[i]));
        let rest = upload_from(parts, i + 1, tokens, i + 1, write_ok);
        assert(upload_from(parts, i, tokens, i, write_ok).0 == seq![head] + rest.0);
        assert forall|j: int| 0 <= j < f - i implies #[trigger] upload_from(
            parts,
            i,
            tokens,
            i,
            write_ok,
        ).0[j] == (dest_name(spec_file_name(parts[i + j]), tokens[i + j]), spec_data(
            parts[i + j],
        )) by {
            if j > 0 {
                assert((seq![head] + rest.0)[j] == rest.0[j - 1]);
            }
        }
    }
}

/// When every part carries a usable name and readable data but the
/// write numbered `f` (counting written files from 0) fails, the
/// request aborts on the spot: it reports failure, and exactly the `f`
/// files written before the failure appear, unchanged — files from
/// earlier parts are not rolled back, files from later parts never
/// appear.
pub proof fn lemma_write_failure(
    parts: Seq<UploadPart>,
    tokens: Seq<Seq<char>>,
    write_ok: Seq<bool>,
    f: int,
)
    requires
        forall|j: int|
            0 <= j < parts.len() ==> usable_name(#[trigger] parts[j]) && parts[j].data is Some,
        tokens.len() >= parts.len(),
        write_ok.len() >= parts.len(),
        0 <= f < parts.len(),
        forall|j: int| 0 <= j < f ==> #[trigger] write_ok[j],
        !write_ok[f],
    ensures
        !upload_of(parts, tokens, write_ok).1,
        upload_of(parts, tokens, write_ok).0.len() == f,
        forall|j: int|
            0 <= j < f ==> #[trigger] upload_of(parts, tokens, write_ok).0[j] == (dest_name(
                spec_file_name(parts[j]),
                tokens[j],
            ), spec_data(parts[j])),
{
    lemma_write_failure_from(parts, tokens, write_ok, f, 0);
}

} // verus!
