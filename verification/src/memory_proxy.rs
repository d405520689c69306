//! Decisions of the simulator memory proxy.
//!
//! The simulator sends newline-delimited requests to read or write host
//! memory by physical address; the PA/VA map translates them to virtual
//! addresses, and an access never runs past the end of the mapped region.
//! A read is answered with the bytes read and the request's metadata echoed
//! back; a write is not answered.
use crate::mem::pa_va_map::{lemma_extent_reaches_region_end, ranges_wf, spec_lookup_extent, AddressRange, PaVaMap};
use vstd::prelude::*;

verus! {

/// A memory access request from the simulator.
#[derive(Clone, Debug)]
pub struct SimpleMemRequest {
    /// Request type: "mem_read" or "mem_write".
    pub request_type: String,
    /// Channel the response is routed to.
    pub channel_id: u32,
    /// Physical address.
    pub address: u64,
    /// Length of the access in bytes.
    pub length: usize,
    /// Bytes to write.
    pub data: Option<Vec<u8>>,
    /// Start byte index within the data bus (reads).
    pub start_byte_index: Option<usize>,
    /// First beat flag (reads).
    pub is_first: Option<bool>,
    /// Last beat flag (reads).
    pub is_last: Option<bool>,
    /// Request identifier.
    pub request_id: Option<String>,
}

/// A response to the simulator.
#[derive(Clone, Debug)]
pub struct SimpleMemResponse {
    /// Response type: "mem_read_response".
    pub response_type: String,
    /// Channel id of the request.
    pub channel_id: u32,
    /// Bytes read.
    pub data: Option<Vec<u8>>,
    /// Echoed from the request.
    pub start_byte_index: Option<usize>,
    /// Echoed from the request.
    pub is_first: Option<bool>,
    /// Echoed from the request.
    pub is_last: Option<bool>,
    /// Echoed from the request.
    pub request_id: Option<String>,
}

/// What the proxy does with a request.
#[derive(Clone, Debug)]
pub enum ProxyAction {
    /// Read `length` bytes at virtual address `va` and answer with
    /// `read_response`.
    Read { va: u64, length: usize },
    /// Write `data` at virtual address `va`; no answer.
    Write { va: u64, data: Vec<u8> },
    /// The request's physical address is in no registered region; nothing is
    /// accessed and the caller reports the error (a read is still answered).
    Unmapped,
}

/// A request the proxy can serve: a read, or a write carrying data. Any
/// other request type is a protocol violation that callers rule out.
pub open spec fn request_supported(req: SimpleMemRequest) -> bool {
    ||| req.request_type@ == "mem_read"@
    ||| (req.request_type@ == "mem_write"@ && req.data is Some)
}

/// The smaller of a length and the bytes left in the region.
pub open spec fn clamp_len(len: int, limit: u64) -> int {
    if len <= limit {
        len
    } else {
        limit as int
    }
}

/// The plan for a request whose address translates to `va` with
/// `remaining` bytes left in its region: `Some((va, length))` for a read,
/// where the read covers `length` bytes.
pub open spec fn spec_read_plan(req: SimpleMemRequest, translation: Option<(u64, u64)>) -> Option<
    (u64, usize),
> {
    match translation {
        Some((va, remaining)) => Some((va, clamp_len(req.length as int, remaining) as usize)),
        None => None,
    }
}

/// The plan for a write: the virtual address and the bytes to store there,
/// the request's data cut at the region's end.
pub open spec fn spec_write_plan(data: Seq<u8>, translation: Option<(u64, u64)>) -> Option<
    (u64, Seq<u8>),
> {
    match translation {
        Some((va, remaining)) => Some((va, data.subrange(0, clamp_len(data.len() as int, remaining)))),
        None => None,
    }
}

/// The smaller of `len` and `limit`.
fn clamp(len: usize, limit: u64) -> (r: usize)
    ensures
        r == clamp_len(len as int, limit),
        r <= len,
        r <= limit,
        r == len || r == limit,
{
    if (len as u64) <= limit {
        len
    } else {
        limit as usize
    }
}

/// Decides how to serve a request. The request's physical address is
/// translated through the PA/VA map; a read covers the requested length
/// but no more than the bytes left in the region, and a write stores the
/// request's data likewise cut at the region's end. An untranslatable
/// address accesses nothing.
pub fn plan_request(req: SimpleMemRequest, map: &PaVaMap) -> (r: ProxyAction)
    requires
        map.wf(),
        request_supported(req),
    ensures
        ({
            let t = spec_lookup_extent(map@.ranges, req.address);
            if req.request_type@ == "mem_read"@ {
                match spec_read_plan(req, t) {
                    Some((va, length)) => r == ProxyAction::Read { va, length },
                    None => r is Unmapped,
                }
            } else {
                match spec_write_plan(req.data.unwrap()@, t) {
                    Some((va, data)) => r matches ProxyAction::Write { va: rva, data: rdata }
                        && rva == va && rdata@ == data,
                    None => r is Unmapped,
                }
            }
        }),
{
    let is_read = req.request_type == "mem_read".to_owned();
    let (va, remaining) = match map.lookup_extent(req.address) {
        Some(t) => t,
        None => return ProxyAction::Unmapped,
    };
    if is_read {
        ProxyAction::Read { va, length: clamp(req.length, remaining) }
    } else {
        match req.data {
            Some(data) => {
                let n = clamp(data.len(), remaining);
                let mut out: Vec<u8> = Vec::new();
                let mut i: usize = 0;
                while i < n
                    invariant
                        n <= data@.len(),
                        i <= n,
                        out@ == data@.subrange(0, i as int),
                    decreases n - i,
                {
                    out.push(data[i]);
                    i = i + 1;
                }
                ProxyAction::Write { va, data: out }
            },
            None => ProxyAction::Unmapped,
        }
    }
}

/// The answer to a read request: the bytes read, with the request's channel,
/// bus position, beat flags and identifier echoed back.
pub fn read_response(req: SimpleMemRequest, data: Vec<u8>) -> (r: SimpleMemResponse)
    ensures
        r.response_type@ == "mem_read_response"@,
        r.channel_id == req.channel_id,
        r.data == Some(data),
        r.start_byte_index == req.start_byte_index,
        r.is_first == req.is_first,
        r.is_last == req.is_last,
        r.request_id == req.request_id,
{
    SimpleMemResponse {
        response_type: "mem_read_response".to_owned(),
        channel_id: req.channel_id,
        data: Some(data),
        start_byte_index: req.start_byte_index,
        is_first: req.is_first,
        is_last: req.is_last,
        request_id: req.request_id,
    }
}

/// The clamped length is the minimum of the two: no more than either, and
/// equal to one of them.
pub proof fn lemma_clamp_is_min(len: int, limit: u64)
    ensures
        clamp_len(len, limit) <= len,
        clamp_len(len, limit) <= limit,
        clamp_len(len, limit) == len || clamp_len(len, limit) == limit,
{
}

/// An access that fits in its region is served whole: for an address in the
/// registered region `[pa_start, pa_end)`, a read of at most `pa_end - pa`
/// bytes is planned for exactly the requested length, and a write of at most
/// that many bytes stores all of its data, both at the matching virtual
/// address. A longer access covers exactly the `pa_end - pa` bytes up to the
/// region's end.
pub proof fn lemma_plan_covers_fitting_access(
    m: Map<u64, AddressRange>,
    req: SimpleMemRequest,
    data: Seq<u8>,
    k: u64,
)
    requires
        ranges_wf(m),
        m.contains_key(k),
        m[k].spec_contains(req.address),
    ensures
        ({
            let t = spec_lookup_extent(m, req.address);
            let va = (m[k].va_start + (req.address - k)) as u64;
            let left = m[k].pa_end - req.address;
            &&& req.length <= left ==> spec_read_plan(req, t) == Some((va, req.length))
            &&& req.length > left ==> spec_read_plan(req, t) == Some((va, left as usize))
            &&& data.len() <= left ==> spec_write_plan(data, t) == Some((va, data))
            &&& data.len() > left ==> spec_write_plan(data, t) == Some(
                (va, data.subrange(0, left)),
            )
        }),
{
    lemma_extent_reaches_region_end(m, req.address, k);
    assert(data.subrange(0, data.len() as int) =~= data);
}

} // verus!
