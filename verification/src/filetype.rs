//! File-type detection for opened and saved files: first by reported
//! content type, then by file extension.

use vstd::prelude::*;

verus! {

/// What the host's file query reported about the entry's kind.
#[derive(Clone, Copy, PartialEq, Eq, Structural, Debug)]
pub enum FsEntryKind {
    Regular,
    Directory,
    Other,
}

/// The file kinds the application distinguishes.
#[derive(Clone, Copy, PartialEq, Eq, Structural, Debug)]
pub enum FileType {
    Folder,
    RnoteFile,
    XoppFile,
    VectorImageFile,
    BitmapImageFile,
    PdfFile,
    UnknownFile,
}

pub open spec fn spec_ct_rnote() -> Seq<u8> {
    seq![97u8, 112u8, 112u8, 108u8, 105u8, 99u8, 97u8, 116u8, 105u8, 111u8, 110u8, 47u8, 114u8, 110u8, 111u8, 116u8, 101u8]
}

pub open spec fn spec_ct_xopp() -> Seq<u8> {
    seq![97u8, 112u8, 112u8, 108u8, 105u8, 99u8, 97u8, 116u8, 105u8, 111u8, 110u8, 47u8, 120u8, 45u8, 120u8, 111u8, 112u8, 112u8]
}

pub open spec fn spec_ct_svg() -> Seq<u8> {
    seq![105u8, 109u8, 97u8, 103u8, 101u8, 47u8, 115u8, 118u8, 103u8, 43u8, 120u8, 109u8, 108u8]
}

pub open spec fn spec_ct_png() -> Seq<u8> {
    seq![105u8, 109u8, 97u8, 103u8, 101u8, 47u8, 112u8, 110u8, 103u8]
}

pub open spec fn spec_ct_jpeg() -> Seq<u8> {
    seq![105u8, 109u8, 97u8, 103u8, 101u8, 47u8, 106u8, 112u8, 101u8, 103u8]
}

pub open spec fn spec_ct_pdf() -> Seq<u8> {
    seq![97u8, 112u8, 112u8, 108u8, 105u8, 99u8, 97u8, 116u8, 105u8, 111u8, 110u8, 47u8, 112u8, 100u8, 102u8]
}

pub open spec fn spec_ext_rnote() -> Seq<u8> {
    seq![114u8, 110u8, 111u8, 116u8, 101u8]
}

pub open spec fn spec_ext_xopp() -> Seq<u8> {
    seq![120u8, 111u8, 112u8, 112u8]
}

fn ct_rnote_bytes() -> (r: Vec<u8>)
    ensures
        r@ == spec_ct_rnote(),
{
    let mut r: Vec<u8> = Vec::new();
    r.push(97);
    r.push(112);
    r.push(112);
    r.push(108);
    r.push(105);
    r.push(99);
    r.push(97);
    r.push(116);
    r.push(105);
    r.push(111);
    r.push(110);
    r.push(47);
    r.push(114);
    r.push(110);
    r.push(111);
    r.push(116);
    r.push(101);
    proof {
        assert(r@ =~= spec_ct_rnote());
    }
    r
}

fn ct_xopp_bytes() -> (r: Vec<u8>)
    ensures
        r@ == spec_ct_xopp(),
{
    let mut r: Vec<u8> = Vec::new();
    r.push(97);
    r.push(112);
    r.push(112);
    r.push(108);
    r.push(105);
    r.push(99);
    r.push(97);
    r.push(116);
    r.push(105);
    r.push(111);
    r.push(110);
    r.push(47);
    r.push(120);
    r.push(45);
    r.push(120);
    r.push(111);
    r.push(112);
    r.push(112);
    proof {
        assert(r@ =~= spec_ct_xopp());
    }
    r
}

fn ct_svg_bytes() -> (r: Vec<u8>)
    ensures
        r@ == spec_ct_svg(),
{
    let mut r: Vec<u8> = Vec::new();
    r.push(105);
    r.push(109);
    r.push(97);
    r.push(103);
    r.push(101);
    r.push(47);
    r.push(115);
    r.push(118);
    r.push(103);
    r.push(43);
    r.push(120);
    r.push(109);
    r.push(108);
    proof {
        assert(r@ =~= spec_ct_svg());
    }
    r
}

fn ct_png_bytes() -> (r: Vec<u8>)
    ensures
        r@ == spec_ct_png(),
{
    let mut r: Vec<u8> = Vec::new();
    r.push(105);
    r.push(109);
    r.push(97);
    r.push(103);
    r.push(101);
    r.push(47);
    r.push(112);
    r.push(110);
    r.push(103);
    proof {
        assert(r@ =~= spec_ct_png());
    }
    r
}

fn ct_jpeg_bytes() -> (r: Vec<u8>)
    ensures
        r@ == spec_ct_jpeg(),
{
    let mut r: Vec<u8> = Vec::new();
    r.push(105);
    r.push(109);
    r.push(97);
    r.push(103);
    r.push(101);
    r.push(47);
    r.push(106);
    r.push(112);
    r.push(101);
    r.push(103);
    proof {
        assert(r@ =~= spec_ct_jpeg());
    }
    r
}

fn ct_pdf_bytes() -> (r: Vec<u8>)
    ensures
        r@ == spec_ct_pdf(),
{
    let mut r: Vec<u8> = Vec::new();
    r.push(97);
    r.push(112);
    r.push(112);
    r.push(108);
    r.push(105);
    r.push(99);
    r.push(97);
    r.push(116);
    r.push(105);
    r.push(111);
    r.push(110);
    r.push(47);
    r.push(112);
    r.push(100);
    r.push(102);
    proof {
        assert(r@ =~= spec_ct_pdf());
    }
    r
}

fn ext_rnote_bytes() -> (r: Vec<u8>)
    ensures
        r@ == spec_ext_rnote(),
{
    let mut r: Vec<u8> = Vec::new();
    r.push(114);
    r.push(110);
    r.push(111);
    r.push(116);
    r.push(101);
    proof {
        assert(r@ =~= spec_ext_rnote());
    }
    r
}

fn ext_xopp_bytes() -> (r: Vec<u8>)
    ensures
        r@ == spec_ext_xopp(),
{
    let mut r: Vec<u8> = Vec::new();
    r.push(120);
    r.push(111);
    r.push(112);
    r.push(112);
    proof {
        assert(r@ =~= spec_ext_xopp());
    }
    r
}

/// Compares two byte strings.
fn bytes_eq(a: &Vec<u8>, b: &Vec<u8>) -> (r: bool)
    ensures
        r == (a@ == b@),
{
    if a.len() != b.len() {
        proof {
            assert(a@ != b@);
        }
        return false;
    }
    let n = a.len();
    let mut i: usize = 0;
    while i < n
        invariant
            0 <= i <= n,
            n == a@.len(),
            n == b@.len(),
            forall|j: int| 0 <= j < i ==> a@[j] == b@[j],
        decreases n - i,
    {
        if a[i] != b[i] {
            return false;
        }
        i += 1;
    }
    proof {
        assert(a@ =~= b@);
    }
    true
}

/// What the content type alone determines.
pub open spec fn spec_type_of_content(ct: Seq<u8>) -> Option<FileType> {
    if ct == spec_ct_rnote() {
        Option::Some(FileType::RnoteFile)
    } else if ct == spec_ct_xopp() {
        Option::Some(FileType::XoppFile)
    } else if ct == spec_ct_svg() {
        Option::Some(FileType::VectorImageFile)
    } else if ct == spec_ct_png() || ct == spec_ct_jpeg() {
        Option::Some(FileType::BitmapImageFile)
    } else if ct == spec_ct_pdf() {
        Option::Some(FileType::PdfFile)
    } else {
        Option::None
    }
}

/// What the extension fallback determines.
pub open spec fn spec_type_of_extension(ext: Seq<u8>) -> Option<FileType> {
    if ext == spec_ext_rnote() {
        Option::Some(FileType::RnoteFile)
    } else if ext == spec_ext_xopp() {
        Option::Some(FileType::XoppFile)
    } else {
        Option::None
    }
}

/// The full decision: a directory is a folder; an exotic entry is
/// unknown; a regular file goes by its content type, and when that says
/// nothing (or the query failed), by its extension.
pub open spec fn spec_lookup_file_type(
    kind: Option<FsEntryKind>,
    content_type: Option<Seq<u8>>,
    extension: Option<Seq<u8>>,
) -> FileType {
    match kind {
        Option::Some(FsEntryKind::Directory) => FileType::Folder,
        Option::Some(FsEntryKind::Other) => FileType::UnknownFile,
        _ => {
            let by_content = match (kind, content_type) {
                (Option::Some(FsEntryKind::Regular), Option::Some(ct)) => spec_type_of_content(ct),
                _ => Option::None,
            };
            match by_content {
                Option::Some(t) => t,
                Option::None => match extension {
                    Option::Some(ext) => match spec_type_of_extension(ext) {
                        Option::Some(t) => t,
                        Option::None => FileType::UnknownFile,
                    },
                    Option::None => FileType::UnknownFile,
                },
            }
        },
    }
}

impl FileType {
    /// Decides a file's kind from what the host queried: the entry kind
    /// (`None` when the query failed), the reported content type, and
    /// the path's extension.
    pub fn lookup_file_type(
        kind: Option<FsEntryKind>,
        content_type: Option<&Vec<u8>>,
        extension: Option<&Vec<u8>>,
    ) -> (r: FileType)
        ensures
            r == spec_lookup_file_type(
                kind,
                match content_type {
                    Option::Some(ct) => Option::Some(ct@),
                    Option::None => Option::None,
                },
                match extension {
                    Option::Some(e) => Option::Some(e@),
                    Option::None => Option::None,
                },
            ),
    {
        match kind {
            Option::Some(FsEntryKind::Directory) => {
                return FileType::Folder;
            },
            Option::Some(FsEntryKind::Other) => {
                return FileType::UnknownFile;
            },
            _ => {},
        }
        if matches!(kind, Option::Some(_)) {
            match content_type {
                Option::Some(ct) => {
                    if bytes_eq(ct, &ct_rnote_bytes()) {
                        return FileType::RnoteFile;
                    }
                    if bytes_eq(ct, &ct_xopp_bytes()) {
                        return FileType::XoppFile;
                    }
                    if bytes_eq(ct, &ct_svg_bytes()) {
                        return FileType::VectorImageFile;
                    }
                    if bytes_eq(ct, &ct_png_bytes()) || bytes_eq(ct, &ct_jpeg_bytes()) {
                        return FileType::BitmapImageFile;
                    }
                    if bytes_eq(ct, &ct_pdf_bytes()) {
                        return FileType::PdfFile;
                    }
                },
                Option::None => {},
            }
        }
        match extension {
            Option::Some(ext) => {
                if bytes_eq(ext, &ext_rnote_bytes()) {
                    return FileType::RnoteFile;
                }
                if bytes_eq(ext, &ext_xopp_bytes()) {
                    return FileType::XoppFile;
                }
            },
            Option::None => {},
        }
        FileType::UnknownFile
    }
}

} // verus!
