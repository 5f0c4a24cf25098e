//! Live peer sync: a catalog-first pull over one bidirectional stream. The
//! dialer sends its catalog version, imports the catalog diff it gets back,
//! requests each changed document, and imports the updates until the
//! accepter says it is done. Strictly turn-taking, so it cannot deadlock.
//!
//! Frames are a 4-byte big-endian length and a body. This module holds the
//! framing checks and the two sides' decisions; the stream, the message
//! encoding and the document store are the caller's.

use vstd::prelude::*;

use crate::text::same_text;

verus! {

/// A sync frame.
#[derive(Debug, Clone)]
pub enum Msg {
    /// Dialer to accepter, first: pull me up to date from this catalog version.
    Pull { workspace: String, catalog_vv: Vec<u8> },
    /// Accepter to dialer: the catalog update-diff.
    Catalog { update: Vec<u8> },
    /// Dialer to accepter, repeated: send this document's updates from this version.
    DocRequest { doc_id: String, vv: Vec<u8> },
    /// Dialer to accepter: no more requests.
    EndRequests,
    /// Accepter to dialer, repeated: a document's updates.
    DocUpdate { doc_id: String, bytes: Vec<u8> },
    /// Accepter to dialer: that document is not held here.
    DocMissing { doc_id: String },
    /// Accepter to dialer: every requested document was sent.
    EndDocs,
}

/// The largest frame body accepted (64 MiB), a guard against a malformed
/// length.
pub const MAX_FRAME: u32 = 67108864;

/// Why a sync exchange stopped.
#[derive(Debug, Clone)]
pub enum SyncError {
    /// A frame body too long for its 4-byte length.
    FrameTooLarge,
    /// A received length over [`MAX_FRAME`].
    LengthExceedsCap { len: u32 },
    /// The dialer pulled for another workspace.
    WorkspaceMismatch { theirs: String, mine: String },
    /// The first frame was not the pull (`None`: the stream ended).
    ExpectedPull { got: Option<Msg> },
    /// The answer to the pull was not the catalog.
    ExpectedCatalog { got: Option<Msg> },
    /// A frame that does not belong in the request phase.
    UnexpectedRequestFrame { got: Msg },
    /// A frame that does not belong in the document phase.
    UnexpectedDocFrame { got: Msg },
}

pub open spec fn be_bytes(n: u32) -> Seq<u8> {
    seq![(n / 0x1000000) as u8, ((n / 0x10000) % 256) as u8, ((n / 0x100) % 256) as u8, (n % 256) as u8]
}

/// The length header of a frame body of `len` bytes.
pub fn frame_header(len: usize) -> (r: Result<[u8; 4], SyncError>)
    ensures
        len > u32::MAX ==> r matches Err(SyncError::FrameTooLarge),
        len <= u32::MAX ==> (r matches Ok(h) && h@ == be_bytes(len as u32)),
{
    if len > 0xffff_ffff {
        return Err(SyncError::FrameTooLarge);
    }
    let n = len as u32;
    let h: [u8; 4] = [
        (n / 0x1000000) as u8,
        ((n / 0x10000) % 256) as u8,
        ((n / 0x100) % 256) as u8,
        (n % 256) as u8,
    ];
    assert(h@ =~= be_bytes(n));
    Ok(h)
}

/// The big-endian value of a length header.
pub open spec fn header_value(h: Seq<u8>) -> nat {
    ((h[0] as nat * 256 + h[1] as nat) * 256 + h[2] as nat) * 256 + h[3] as nat
}

/// The body length a header announces, refused above [`MAX_FRAME`].
pub fn frame_body_len(h: [u8; 4]) -> (r: Result<u32, SyncError>)
    ensures
        header_value(h@) > MAX_FRAME ==> (r matches Err(SyncError::LengthExceedsCap { len }) && len
            == header_value(h@)),
        header_value(h@) <= MAX_FRAME ==> (r matches Ok(n) && n == header_value(h@)),
{
    let v: u64 = ((h[0] as u64 * 256 + h[1] as u64) * 256 + h[2] as u64) * 256 + h[3] as u64;
    assert(v <= u32::MAX) by (nonlinear_arith)
        requires
            v == ((h[0] as u64 * 256 + h[1] as u64) * 256 + h[2] as u64) * 256 + h[3] as u64,
            h[0] < 256,
            h[1] < 256,
            h[2] < 256,
            h[3] < 256,
    ;
    let n = v as u32;
    if n > MAX_FRAME {
        return Err(SyncError::LengthExceedsCap { len: n });
    }
    Ok(n)
}


/// The accepter's first step: the dialer's catalog version, if the first
/// frame is a pull for this workspace.
pub fn accept_pull(first: Option<Msg>, mine: &String) -> (r: Result<Vec<u8>, SyncError>)
    ensures
        match first {
            Some(Msg::Pull { workspace, catalog_vv }) => if workspace@ == mine@ {
                r matches Ok(v) && v@ == catalog_vv@
            } else {
                r matches Err(SyncError::WorkspaceMismatch { theirs, mine: m }) && theirs@
                    == workspace@ && m@ == mine@
            },
            _ => r matches Err(SyncError::ExpectedPull { .. }),
        },
{
    match first {
        Some(Msg::Pull { workspace, catalog_vv }) => {
            if same_text(workspace.as_str(), mine.as_str()) {
                Ok(catalog_vv)
            } else {
                Err(SyncError::WorkspaceMismatch { theirs: workspace, mine: mine.clone() })
            }
        },
        other => Err(SyncError::ExpectedPull { got: other }),
    }
}

/// What the accepter does with a frame of the request phase.
#[derive(Debug, Clone)]
pub enum RequestStep {
    /// Export this document from this version and send it (or say it is missing).
    Export { doc_id: String, vv: Vec<u8> },
    /// Requests are over (or the stream ended): send the end of documents.
    Finish,
}

pub fn accept_request(frame: Option<Msg>) -> (r: Result<RequestStep, SyncError>)
    ensures
        match frame {
            Some(Msg::DocRequest { doc_id, vv }) => r matches Ok(RequestStep::Export { doc_id: d, vv: v })
                && d@ == doc_id@ && v@ == vv@,
            Some(Msg::EndRequests) | None => r matches Ok(RequestStep::Finish),
            Some(_) => r matches Err(SyncError::UnexpectedRequestFrame { .. }),
        },
{
    match frame {
        Some(Msg::DocRequest { doc_id, vv }) => Ok(RequestStep::Export { doc_id, vv }),
        Some(Msg::EndRequests) | None => Ok(RequestStep::Finish),
        Some(other) => Err(SyncError::UnexpectedRequestFrame { got: other }),
    }
}

/// The accepter's answer to one document request.
pub fn answer_request(doc_id: String, exported: Option<Vec<u8>>) -> (r: Msg)
    ensures
        match exported {
            Some(b) => r matches Msg::DocUpdate { doc_id: d, bytes } && d@ == doc_id@ && bytes@ == b@,
            None => r matches Msg::DocMissing { doc_id: d } && d@ == doc_id@,
        },
{
    match exported {
        Some(bytes) => Msg::DocUpdate { doc_id, bytes },
        None => Msg::DocMissing { doc_id },
    }
}

/// The dialer's second step: the catalog diff, if that is what came back.
/// (A non-empty diff dirties the catalog structure.)
pub fn expect_catalog(frame: Option<Msg>) -> (r: Result<Vec<u8>, SyncError>)
    ensures
        match frame {
            Some(Msg::Catalog { update }) => r matches Ok(u) && u@ == update@,
            _ => r matches Err(SyncError::ExpectedCatalog { .. }),
        },
{
    match frame {
        Some(Msg::Catalog { update }) => Ok(update),
        other => Err(SyncError::ExpectedCatalog { got: other }),
    }
}

/// What the dialer does with a frame of the document phase.
#[derive(Debug, Clone)]
pub enum DocStep {
    /// Import these updates into this document.
    Import { doc_id: String, bytes: Vec<u8> },
    /// The accepter does not hold a requested document: nothing to do.
    Skip,
    /// The accepter is done (or the stream ended).
    Finish,
}

pub fn dialer_doc_step(frame: Option<Msg>) -> (r: Result<DocStep, SyncError>)
    ensures
        match frame {
            Some(Msg::DocUpdate { doc_id, bytes }) => r matches Ok(DocStep::Import { doc_id: d, bytes: b })
                && d@ == doc_id@ && b@ == bytes@,
            Some(Msg::DocMissing { .. }) => r matches Ok(DocStep::Skip),
            Some(Msg::EndDocs) | None => r matches Ok(DocStep::Finish),
            Some(_) => r matches Err(SyncError::UnexpectedDocFrame { .. }),
        },
{
    match frame {
        Some(Msg::DocUpdate { doc_id, bytes }) => Ok(DocStep::Import { doc_id, bytes }),
        Some(Msg::DocMissing { .. }) => Ok(DocStep::Skip),
        Some(Msg::EndDocs) | None => Ok(DocStep::Finish),
        Some(other) => Err(SyncError::UnexpectedDocFrame { got: other }),
    }
}

} // verus!
