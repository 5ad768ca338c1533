//! Reading of documents in the portable document format, which the crate
//! `lopdf` does: the pages of a document, their text and their images.

use vstd::prelude::*;
use crate::error::PipelineError;
use crate::utils::text::chars_of;
use crate::utils::text::push_all;
use crate::utils::text::text_of;

verus! {

#[verifier::external_type_specification]
#[verifier::external_body]
pub struct ExDocument(lopdf::Document);

#[verifier::external_type_specification]
#[verifier::external_body]
pub struct ExDocumentError(lopdf::Error);

/// The pages of `document` in their order, each as its number and the
/// identifier of its object.
pub uninterp spec fn document_pages(document: lopdf::Document) -> Seq<(u32, (u32, u16))>;

/// The text on the page with the number `page` of `document`; nothing where
/// no text can be had from it.
pub uninterp spec fn page_text(document: lopdf::Document, page: u32) -> Option<Seq<char>>;

/// The data of the images on the page of `document` with the identifier
/// `page`, in their order; nothing where they cannot be listed.
pub uninterp spec fn page_images(document: lopdf::Document, page: (u32, u16)) -> Option<
    Seq<Seq<u8>>,
>;

/// `Document::load_mem` of the crate `lopdf`: the document read from the
/// bytes, or the error with which reading them ends. Nothing is claimed
/// of either: large documents are read on several threads.
#[verifier::external_body]
fn load_mem(bytes: &[u8]) -> (r: Result<lopdf::Document, lopdf::Error>) {
    lopdf::Document::load_mem(bytes)
}

/// `Document::get_pages` of the crate `lopdf`: the numbers of the pages and
/// the identifiers of their objects, in ascending order of the numbers.
#[verifier::external_body]
fn get_pages(document: &lopdf::Document) -> (r: Vec<(u32, (u32, u16))>)
    ensures
        r@ == document_pages(*document),
{
    document.get_pages().into_iter().collect()
}

/// `Document::extract_text` of the crate `lopdf`, for one page: the text of
/// that page, or the error with which extracting it ends.
#[verifier::external_body]
fn extract_text(document: &lopdf::Document, page: u32) -> (r: Result<String, lopdf::Error>)
    ensures
        match r {
            Ok(text) => page_text(*document, page) == Some(text@),
            Err(_) => page_text(*document, page) is None,
        },
{
    document.extract_text(&[page])
}

/// The data of each of `images`.
pub open spec fn images_view(images: Seq<Vec<u8>>) -> Seq<Seq<u8>> {
    Seq::new(images.len(), |i: int| images[i]@)
}

/// `Document::get_page_images` of the crate `lopdf`: the data of each image
/// that it lists for the page, or the error with which listing them ends.
#[verifier::external_body]
fn get_page_images(document: &lopdf::Document, page: (u32, u16)) -> (r: Result<
    Vec<Vec<u8>>,
    lopdf::Error,
>)
    ensures
        match r {
            Ok(images) => page_images(*document, page) == Some(images_view(images@)),
            Err(_) => page_images(*document, page) is None,
        },
{
    Ok(document.get_page_images(page)?.into_iter().map(|image| image.content.to_vec()).collect())
}

/// What reading a document ends with, in the terms of this library: the
/// document that was read, or `Parse` for whatever error the reading ended
/// with.
pub open spec fn outcome_of_reading(loaded: Result<lopdf::Document, lopdf::Error>) -> Result<
    lopdf::Document,
    PipelineError,
> {
    match loaded {
        Ok(document) => Ok(document),
        Err(_) => Err(PipelineError::Parse),
    }
}

/// What reading a document ends with, in the terms of this library.
pub fn reading_outcome(loaded: Result<lopdf::Document, lopdf::Error>) -> (r: Result<
    lopdf::Document,
    PipelineError,
>)
    ensures
        r == outcome_of_reading(loaded),
{
    match loaded {
        Ok(document) => Ok(document),
        Err(_) => Err(PipelineError::Parse),
    }
}

/// The document that `bytes` hold. Where they cannot be read as a
/// document it fails, and then with `Parse`.
pub fn load_document(bytes: &[u8]) -> (r: Result<lopdf::Document, PipelineError>)
    ensures
        r is Err ==> r->Err_0 == PipelineError::Parse,
{
    reading_outcome(load_mem(bytes))
}

/// The text of the first `upto` of `pages`, one page after the other;
/// nothing where one of them gives no text.
pub open spec fn text_of_pages(
    document: lopdf::Document,
    pages: Seq<(u32, (u32, u16))>,
    upto: int,
) -> Option<Seq<char>>
    decreases upto,
{
    if upto <= 0 {
        Some(Seq::empty())
    } else {
        match text_of_pages(document, pages, upto - 1) {
            Some(earlier) => match page_text(document, pages[upto - 1].0) {
                Some(text) => Some(earlier + text),
                None => None,
            },
            None => None,
        }
    }
}

/// The text of the whole of `document`; nothing where one of its pages
/// gives no text.
pub open spec fn full_text(document: lopdf::Document) -> Option<Seq<char>> {
    text_of_pages(document, document_pages(document), document_pages(document).len() as int)
}

/// The text of the first `upto` of `pages`, one page after the other, a
/// page that gives no text passed over.
pub open spec fn readable_text_of_pages(
    document: lopdf::Document,
    pages: Seq<(u32, (u32, u16))>,
    upto: int,
) -> Seq<char>
    decreases upto,
{
    if upto <= 0 {
        Seq::empty()
    } else {
        let earlier = readable_text_of_pages(document, pages, upto - 1);
        match page_text(document, pages[upto - 1].0) {
            Some(text) => earlier + text,
            None => earlier,
        }
    }
}

/// The text of the pages of `document` that give one.
pub open spec fn readable_text(document: lopdf::Document) -> Seq<char> {
    readable_text_of_pages(
        document,
        document_pages(document),
        document_pages(document).len() as int,
    )
}

/// The first image on the pages from `from` on; a page whose images
/// cannot be listed is passed over.
pub open spec fn first_image_from(
    document: lopdf::Document,
    pages: Seq<(u32, (u32, u16))>,
    from: int,
) -> Option<Seq<u8>>
    decreases pages.len() - from,
{
    if from < 0 || from >= pages.len() {
        None
    } else {
        match page_images(document, pages[from].1) {
            Some(images) if images.len() > 0 => Some(images[0]),
            _ => first_image_from(document, pages, from + 1),
        }
    }
}

/// The first image of `document`: the first on the first page that has
/// one.
pub open spec fn first_image(document: lopdf::Document) -> Option<Seq<u8>> {
    first_image_from(document, document_pages(document), 0)
}

/// The text on the page with the number `page`. It fails with `Parse`
/// where none can be had.
pub fn text_on_page(document: &lopdf::Document, page: u32) -> (r: Result<String, PipelineError>)
    ensures
        match r {
            Ok(text) => page_text(*document, page) == Some(text@),
            Err(e) => e == PipelineError::Parse && page_text(*document, page) is None,
        },
{
    match extract_text(document, page) {
        Ok(text) => Ok(text),
        Err(_) => Err(PipelineError::Parse),
    }
}

/// The text of the whole document, page after page. It fails with `Parse`
/// where a page gives no text.
pub fn document_text(document: &lopdf::Document) -> (r: Result<String, PipelineError>)
    ensures
        match r {
            Ok(text) => full_text(*document) == Some(text@),
            Err(e) => e == PipelineError::Parse && full_text(*document) is None,
        },
{
    let pages = get_pages(document);
    let mut all: Vec<char> = Vec::new();
    let mut i: usize = 0;
    while i < pages.len()
        invariant
            i <= pages@.len(),
            pages@ == document_pages(*document),
            text_of_pages(*document, pages@, i as int) == Some(all@),
        decreases pages@.len() - i,
    {
        match extract_text(document, pages[i].0) {
            Ok(text) => {
                let more = chars_of(text.as_str());
                push_all(&mut all, &more);
            },
            Err(_) => {
                proof {
                    lemma_text_stays_missing(*document, pages@, i + 1, pages@.len() as int);
                }
                return Err(PipelineError::Parse);
            },
        }
        i = i + 1;
    }
    Ok(text_of(&all))
}

proof fn lemma_text_stays_missing(
    document: lopdf::Document,
    pages: Seq<(u32, (u32, u16))>,
    from: int,
    upto: int,
)
    requires
        0 <= from <= upto,
        text_of_pages(document, pages, from) is None,
    ensures
        text_of_pages(document, pages, upto) is None,
    decreases upto - from,
{
    if from < upto {
        lemma_text_stays_missing(document, pages, from, upto - 1);
    }
}

/// The text of the pages that give one, page after page.
pub fn document_readable_text(document: &lopdf::Document) -> (r: String)
    ensures
        r@ == readable_text(*document),
{
    let pages = get_pages(document);
    let mut all: Vec<char> = Vec::new();
    let mut i: usize = 0;
    while i < pages.len()
        invariant
            i <= pages@.len(),
            pages@ == document_pages(*document),
            all@ == readable_text_of_pages(*document, pages@, i as int),
        decreases pages@.len() - i,
    {
        match extract_text(document, pages[i].0) {
            Ok(text) => {
                let more = chars_of(text.as_str());
                push_all(&mut all, &more);
            },
            Err(_) => {},
        }
        i = i + 1;
    }
    text_of(&all)
}

/// The first image of the document. It fails with `ExtractionNotFound`
/// where the document has none.
pub fn document_first_image(document: &lopdf::Document) -> (r: Result<Vec<u8>, PipelineError>)
    ensures
        match r {
            Ok(image) => first_image(*document) == Some(image@),
            Err(e) => e == PipelineError::ExtractionNotFound && first_image(*document) is None,
        },
{
    let pages = get_pages(document);
    let mut i: usize = 0;
    while i < pages.len()
        invariant
            i <= pages@.len(),
            pages@ == document_pages(*document),
            first_image(*document) == first_image_from(*document, pages@, i as int),
        decreases pages@.len() - i,
    {
        match get_page_images(document, pages[i].1) {
            Ok(mut images) => {
                if images.len() > 0 {
                    proof {
                        assert(images_view(images@)[0] == images@[0]@);
                    }
                    let image = images.swap_remove(0);
                    return Ok(image);
                }
            },
            Err(_) => {},
        }
        i = i + 1;
    }
    Err(PipelineError::ExtractionNotFound)
}

} // verus!
