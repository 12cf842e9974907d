//! A chapter's workspace layout, per-page outcomes and the ordered
//! assembly of fetched pages into one document.

use vstd::prelude::*;
use vstd::string::*;
use crate::text::{decimal, push_decimal};

verus! {

#[verifier::external_type_specification]
#[verifier::external_body]
pub struct ExImageError(image::ImageError);

/// Why a page did not become part of its chapter's document.
#[derive(Clone, Copy, Debug, PartialEq, Eq, Structural)]
pub enum PageError {
    /// The server answered with a status other than success.
    HttpStatus,
    /// The fetched bytes could not be decoded as an image, or re-encoded.
    Codec,
}

/// Why a chapter's document could not be built.
#[derive(Clone, Copy, Debug, PartialEq, Eq, Structural)]
pub enum DocumentError {
    /// The document encoder refused the page handed to it at this position
    /// (position 0 also stands for a failure to write the document).
    Encode(usize),
}

/// File extension of a stored page image.
pub const PAGE_EXTENSION: &'static str = ".jpg";
/// File extension of a chapter's document.
pub const DOCUMENT_EXTENSION: &'static str = ".pdf";
/// Separator between a directory and an entry in a path.
pub const PATH_SEPARATOR: &'static str = "/";

/// The JPEG encoding of the image that `bytes` holds, in whatever format
/// the image library recognises from its content; `None` when it cannot be
/// decoded or encoded.
pub uninterp spec fn jpeg_of(bytes: Seq<u8>) -> Option<Seq<u8>>;

/// Relies on `image::load_from_memory` and `DynamicImage::write_to` with
/// `ImageFormat::Jpeg`.
#[verifier::external_body]
fn reencode_jpeg(bytes: &[u8]) -> (r: Result<Vec<u8>, image::ImageError>)
    ensures
        match r {
            Ok(v) => jpeg_of(bytes@) == Some(v@),
            Err(_) => jpeg_of(bytes@) is None,
        },
{
    let img = image::load_from_memory(bytes)?;
    let mut out: Vec<u8> = Vec::new();
    img.write_to(&mut std::io::Cursor::new(&mut out), image::ImageFormat::Jpeg)?;
    Ok(out)
}

/// Relies on `jpeg_to_pdf::JpegToPdf`: `add_images` then `create_pdf`, which
/// adds one page per image in the order given; its error carries the
/// position of the refused image, or 0 for a failed write.
#[verifier::external_body]
fn encode_pdf(pages: Vec<Vec<u8>>) -> (r: Result<Vec<u8>, usize>)
    ensures
        match r {
            Ok(_) => true,
            Err(k) => k == 0 || k < pages@.len(),
        },
{
    let mut buf: Vec<u8> = Vec::new();
    let res = jpeg_to_pdf::JpegToPdf::new().add_images(pages).create_pdf(&mut std::io::BufWriter::new(&mut buf));
    res.map(|()| buf).map_err(|e| e.index)
}

/// What a page becomes, given whether the server reported success and the
/// body it sent.
pub open spec fn page_outcome(status_ok: bool, body: Seq<u8>) -> Result<Seq<u8>, PageError> {
    if !status_ok {
        Err(PageError::HttpStatus)
    } else {
        match jpeg_of(body) {
            Some(j) => Ok(j),
            None => Err(PageError::Codec),
        }
    }
}

/// Turns a fetched page into the JPEG stored for it; a response without
/// success status is not decoded at all.
pub fn page_image(status_ok: bool, body: &Vec<u8>) -> (r: Result<Vec<u8>, PageError>)
    ensures
        match r {
            Ok(v) => page_outcome(status_ok, body@) == Ok::<_, PageError>(v@),
            Err(e) => page_outcome(status_ok, body@) == Err::<Seq<u8>, _>(e),
        },
{
    if !status_ok {
        return Err(PageError::HttpStatus);
    }
    match reencode_jpeg(body.as_slice()) {
        Ok(v) => Ok(v),
        Err(_) => Err(PageError::Codec),
    }
}

/// The local file name of the page at position `index`: `<index>.jpg`.
pub fn page_file_name(index: usize) -> (r: String)
    ensures
        r@ == decimal(index as nat) + PAGE_EXTENSION@,
{
    let mut s = String::new();
    push_decimal(&mut s, index);
    s.append(PAGE_EXTENSION);
    s
}

/// The file name of a chapter's document: `<chapter>.pdf`.
pub fn document_file_name(chapter: &str) -> (r: String)
    ensures
        r@ == chapter@ + DOCUMENT_EXTENSION@,
{
    let mut s = String::from_str(chapter);
    s.append(DOCUMENT_EXTENSION);
    s
}

/// The path of entry `name` inside directory `dir`: `<dir>/<name>`.
pub fn child_path(dir: &str, name: &str) -> (r: String)
    ensures
        r@ == dir@ + PATH_SEPARATOR@ + name@,
{
    let mut s = String::from_str(dir);
    s.append(PATH_SEPARATOR);
    s.append(name);
    s
}

/// The path of each page's file in a workspace, by position:
/// `<workspace>/<i>.jpg`.
pub fn page_paths(workspace: &str, count: usize) -> (r: Vec<String>)
    ensures
        r@.len() == count,
        forall|i: int|
            0 <= i < count ==> #[trigger] r@[i]@ == workspace@ + PATH_SEPARATOR@ + (decimal(
                i as nat,
            ) + PAGE_EXTENSION@),
{
    let mut r: Vec<String> = Vec::new();
    let mut i: usize = 0;
    while i < count
        invariant
            i <= count,
            r@.len() == i,
            forall|k: int|
                0 <= k < i ==> #[trigger] r@[k]@ == workspace@ + PATH_SEPARATOR@ + (decimal(
                    k as nat,
                ) + PAGE_EXTENSION@),
        decreases count - i,
    {
        let name = page_file_name(i);
        r.push(child_path(workspace, name.as_str()));
        i = i + 1;
    }
    r
}

pub open spec fn byte_views(v: Seq<Option<Vec<u8>>>) -> Seq<Option<Seq<u8>>> {
    v.map_values(|o: Option<Vec<u8>>| match o {
        Some(b) => Some(b@),
        None => None,
    })
}

pub open spec fn vec_views(v: Seq<Vec<u8>>) -> Seq<Seq<u8>> {
    v.map_values(|b: Vec<u8>| b@)
}

/// The pages that were obtained, in position order; a missing page leaves
/// no trace and later pages keep their relative order.
pub open spec fn present(pages: Seq<Option<Seq<u8>>>) -> Seq<Seq<u8>>
    decreases pages.len(),
{
    if pages.len() == 0 {
        Seq::empty()
    } else {
        match pages.last() {
            Some(p) => present(pages.drop_last()).push(p),
            None => present(pages.drop_last()),
        }
    }
}

/// The pages of a chapter's document, from the page read back at each
/// position (or `None` where none could be read), in position order.
pub fn document_pages(reads: Vec<Option<Vec<u8>>>) -> (r: Vec<Vec<u8>>)
    ensures
        vec_views(r@) == present(byte_views(reads@)),
{
    let n = reads.len();
    let mut out: Vec<Vec<u8>> = Vec::new();
    let mut i: usize = 0;
    while i < n
        invariant
            n == reads@.len(),
            i <= n,
            vec_views(out@) == present(byte_views(reads@).subrange(0, i as int)),
        decreases n - i,
    {
        let ghost s = byte_views(reads@).subrange(0, i as int + 1);
        assert(s.drop_last() =~= byte_views(reads@).subrange(0, i as int));
        match &reads[i] {
            Some(b) => {
                out.push(b.clone());
                assert(vec_views(out@) =~= present(s));
            },
            None => {},
        }
        i = i + 1;
    }
    assert(byte_views(reads@).subrange(0, n as int) =~= byte_views(reads@));
    out
}

/// Builds a chapter's document from the page read back at each position:
/// the pages that were read, in position order, one document page each.
pub fn assemble_document(reads: Vec<Option<Vec<u8>>>) -> (r: Result<Vec<u8>, DocumentError>)
    ensures
        match r {
            Ok(_) => true,
            Err(DocumentError::Encode(k)) => k == 0 || k < present(byte_views(reads@)).len(),
        },
{
    let pages = document_pages(reads);
    match encode_pdf(pages) {
        Ok(doc) => Ok(doc),
        Err(k) => Err(DocumentError::Encode(k)),
    }
}

proof fn lemma_present_all(pages: Seq<Option<Seq<u8>>>)
    requires
        forall|i: int| 0 <= i < pages.len() ==> #[trigger] pages[i] is Some,
    ensures
        present(pages).len() == pages.len(),
        forall|i: int| 0 <= i < pages.len() ==> #[trigger] present(pages)[i] == pages[i]->Some_0,
    decreases pages.len(),
{
    if pages.len() > 0 {
        let rest = pages.drop_last();
        assert forall|i: int| 0 <= i < rest.len() implies #[trigger] rest[i] is Some by {
            assert(rest[i] == pages[i]);
        }
        lemma_present_all(rest);
        assert(pages[pages.len() - 1] is Some);
        assert forall|i: int| 0 <= i < pages.len() implies #[trigger] present(pages)[i]
            == pages[i]->Some_0 by {
            if i < pages.len() - 1 {
                assert(rest[i] == pages[i]);
            }
        }
    }
}

/// When every page was obtained, the document holds each of them, as many
/// as there were, at its own position: order of completion plays no part.
pub proof fn lemma_all_pages_kept_in_order(pages: Seq<Option<Seq<u8>>>)
    requires
        forall|i: int| 0 <= i < pages.len() ==> #[trigger] pages[i] is Some,
    ensures
        present(pages).len() == pages.len(),
        forall|i: int| 0 <= i < pages.len() ==> #[trigger] present(pages)[i] == pages[i]->Some_0,
{
    lemma_present_all(pages);
}

/// When the middle one of three pages is missing, the document holds
/// exactly the other two, first then last.
pub proof fn lemma_missing_middle_page(first: Seq<u8>, last: Seq<u8>)
    ensures
        present(seq![Some(first), None, Some(last)]) == seq![first, last],
{
    let s = seq![Some(first), None, Some(last)];
    let s2 = seq![Some(first), None];
    let s1 = seq![Some(first)];
    let s0 = Seq::<Option<Seq<u8>>>::empty();
    assert(s.drop_last() =~= s2);
    assert(s2.drop_last() =~= s1);
    assert(s1.drop_last() =~= s0);
    assert(s.last() == Some(last));
    assert(s2.last() == None::<Seq<u8>>);
    assert(s1.last() == Some(first));
    assert(present(s0) == Seq::<Seq<u8>>::empty());
    assert(present(s1) =~= seq![first]);
    assert(present(s2) =~= seq![first]);
    assert(present(s) =~= seq![first, last]);
}

} // verus!
