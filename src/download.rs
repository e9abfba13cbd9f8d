//! The decisions around downloading a PDF: which resolved addresses block
//! the request, when the size limit stops it, and whether the bytes are a
//! PDF. The transfer itself happens outside the library.
use vstd::prelude::*;

use crate::address::{is_private_ip, private_address, IpAddress};
use crate::error::Error;
use crate::source::{has_pdf_header, pdf_header, ResolvedPdf};

verus! {

/// Refuses a URL when any address its host resolves to is private or
/// reserved.
pub fn check_resolved_addresses(url: &str, addrs: &Vec<IpAddress>) -> (r: Result<(), Error>)
    ensures
        r is Ok <==> forall|i: int| 0 <= i < addrs@.len() ==> !private_address(
            #[trigger] addrs@[i],
        ),
        r is Err ==> (r->Err_0 matches Error::SsrfBlocked { url: u } && u@ == url@),
{
    let mut i: usize = 0;
    while i < addrs.len()
        invariant
            i <= addrs@.len(),
            forall|k: int| 0 <= k < i ==> !private_address(#[trigger] addrs@[k]),
        decreases addrs@.len() - i,
    {
        if is_private_ip(&addrs[i]) {
            return Err(Error::SsrfBlocked { url: url.to_owned() });
        }
        i = i + 1;
    }
    Ok(())
}

/// Refuses a download whose announced length exceeds `max_bytes`.
pub fn check_declared_length(content_length: Option<u64>, max_bytes: u64) -> (r: Result<(), Error>)
    ensures
        r is Ok <==> (content_length matches Some(n) ==> n <= max_bytes),
        r is Err ==> (r->Err_0 matches Error::DownloadTooLarge { size, max_size } && Some(size)
            == content_length && max_size == max_bytes),
{
    match content_length {
        Some(n) => if n > max_bytes {
            Err(Error::DownloadTooLarge { size: n, max_size: max_bytes })
        } else {
            Ok(())
        },
        None => Ok(()),
    }
}

/// The size after a chunk of `chunk_len` bytes joins `received` bytes, or
/// the error once it exceeds `max_bytes`.
pub fn accept_chunk(received: u64, chunk_len: u64, max_bytes: u64) -> (r: Result<u64, Error>)
    ensures
        received + chunk_len <= max_bytes ==> r == Ok::<u64, Error>((received + chunk_len) as u64),
        received + chunk_len > max_bytes ==> (r matches Err(
            Error::DownloadTooLarge { size, max_size },
        ) && max_size == max_bytes && size == if received + chunk_len > u64::MAX {
            u64::MAX as int
        } else {
            received + chunk_len
        }),
{
    let total = received as u128 + chunk_len as u128;
    if total > max_bytes as u128 {
        let size = if total > u64::MAX as u128 {
            u64::MAX
        } else {
            total as u64
        };
        return Err(Error::DownloadTooLarge { size, max_size: max_bytes });
    }
    Ok(total as u64)
}

/// Accepts downloaded bytes as a PDF named by its URL when they carry the
/// PDF signature.
pub fn check_downloaded(data: Vec<u8>, url: &str) -> (r: Result<ResolvedPdf, Error>)
    ensures
        r is Ok <==> pdf_header(data@),
        r matches Ok(p) ==> p.data@ == data@ && p.source_name@ == url@,
        r is Err ==> (r->Err_0 matches Error::InvalidPdf { reason } && reason@
            == "Downloaded data is not a valid PDF file"@),
{
    if !has_pdf_header(data.as_slice()) {
        return Err(
            Error::InvalidPdf { reason: "Downloaded data is not a valid PDF file".to_owned() },
        );
    }
    Ok(ResolvedPdf { data, source_name: url.to_owned() })
}

} // verus!
