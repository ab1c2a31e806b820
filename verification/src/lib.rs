#![allow(non_camel_case_types)]
use vstd::prelude::*;

pub mod area;
pub mod cio;
pub mod coding;
pub mod cstr_index;
pub mod cstr_info;
pub mod defaults;
pub mod comp_segments;
pub mod encoder;
pub mod header;
pub mod image;
pub mod j2k;
pub mod malloc;
pub mod math;
pub mod mcc;
pub mod mco;
pub mod mct;
pub mod mct_records;
pub mod options;
pub mod packed;
pub mod params;
pub mod poc;
pub mod procedures;
pub mod settings;
pub mod siz;
pub mod sparse_array;
pub mod tile;
pub mod tile_parts;
pub mod writer;
pub mod tile_copy;
pub mod tile_data;
pub mod tile_header;

verus! {

/// The formats of JPEG 2000 data.
#[derive(Debug, Clone, Copy, PartialEq, Eq, Structural)]
pub enum J2KFormat {
    JP2,
    J2K,
    JPT,
}

/// The signature box that starts a JP2 file (RFC 3745).
pub open spec fn jp2_rfc3745_magic() -> Seq<u8> {
    seq![0x00u8, 0x00, 0x00, 0x0c, 0x6a, 0x50, 0x20, 0x20, 0x0d, 0x0a, 0x87, 0x0a]
}

/// The end of the JP2 signature box.
pub open spec fn jp2_magic() -> Seq<u8> {
    seq![0x0du8, 0x0a, 0x87, 0x0a]
}

/// The SOC and SIZ markers that start a codestream.
pub open spec fn j2k_codestream_magic() -> Seq<u8> {
    seq![0xffu8, 0x4f, 0xff, 0x51]
}

/// `buf` starts with `magic`.
pub open spec fn starts_with(buf: Seq<u8>, magic: Seq<u8>) -> bool {
    buf.len() >= magic.len() && buf.subrange(0, magic.len() as int) == magic
}

fn has_prefix(buf: &[u8], magic: &[u8]) -> (r: bool)
    ensures
        r == starts_with(buf@, magic@),
{
    if buf.len() < magic.len() {
        return false;
    }
    let mut i: usize = 0;
    while i < magic.len()
        invariant
            i <= magic@.len() <= buf@.len(),
            forall|k: int| 0 <= k < i ==> #[trigger] buf@[k] == magic@[k],
        decreases magic@.len() - i,
    {
        if buf[i] != magic[i] {
            assert(buf@.subrange(0, magic@.len() as int)[i as int] != magic@[i as int]);
            return false;
        }
        i = i + 1;
    }
    assert(buf@.subrange(0, magic@.len() as int) =~= magic@);
    true
}

/// The format that the first bytes of `buf` announce, if any.
pub open spec fn format_of_bytes(buf: Seq<u8>) -> Option<J2KFormat> {
    if starts_with(buf, jp2_rfc3745_magic()) || starts_with(buf, jp2_magic()) {
        Some(J2KFormat::JP2)
    } else if starts_with(buf, j2k_codestream_magic()) {
        Some(J2KFormat::J2K)
    } else {
        None
    }
}

/// Detects the format of JPEG 2000 data from its first bytes: a JP2
/// signature box, or the start of a codestream.
pub fn detect_format(buf: &[u8]) -> (r: Result<J2KFormat, String>)
    ensures
        format_of_bytes(buf@) matches Some(f) ==> r == Ok::<J2KFormat, String>(f),
        format_of_bytes(buf@) is None ==> (r matches Err(e) && e@ == "Can't detect image format from bytes"@),
{
    let rfc: Vec<u8> = vec![0x00u8, 0x00, 0x00, 0x0c, 0x6a, 0x50, 0x20, 0x20, 0x0d, 0x0a, 0x87, 0x0a];
    let jp2: Vec<u8> = vec![0x0du8, 0x0a, 0x87, 0x0a];
    let j2k: Vec<u8> = vec![0xffu8, 0x4f, 0xff, 0x51];
    assert(rfc@ =~= jp2_rfc3745_magic());
    assert(jp2@ =~= jp2_magic());
    assert(j2k@ =~= j2k_codestream_magic());
    if has_prefix(buf, rfc.as_slice()) {
        Ok(J2KFormat::JP2)
    } else if has_prefix(buf, jp2.as_slice()) {
        Ok(J2KFormat::JP2)
    } else if has_prefix(buf, j2k.as_slice()) {
        Ok(J2KFormat::J2K)
    } else {
        Err("Can't detect image format from bytes".to_owned())
    }
}

/// A character mapped to its ASCII lower case: `A` to `Z` become `a` to
/// `z`, every other character is kept.
pub open spec fn ascii_lower(c: char) -> char {
    if 'A' <= c <= 'Z' {
        ((c as u32) + 32) as char
    } else {
        c
    }
}

/// A string with every character mapped to its ASCII lower case.
pub open spec fn ascii_lower_str(s: Seq<char>) -> Seq<char> {
    s.map_values(|c: char| ascii_lower(c))
}

/// Calls `str::to_ascii_lowercase`, which, as its documentation says, maps
/// `A` to `Z` to `a` to `z` and keeps every other character.
#[verifier::external_body]
fn to_ascii_lowercase(s: &str) -> (r: String)
    ensures
        r@ == ascii_lower_str(s@),
{
    s.to_ascii_lowercase()
}

/// The format that a lower-case file extension names, if any.
pub open spec fn format_of_extension(l: Seq<char>) -> Option<J2KFormat> {
    if l == "jp2"@ || l == "jph"@ {
        Some(J2KFormat::JP2)
    } else if l == "jpt"@ {
        Some(J2KFormat::JPT)
    } else if l == "j2k"@ || l == "j2c"@ || l == "jpc"@ || l == "jhc"@ {
        Some(J2KFormat::J2K)
    } else {
        None
    }
}

/// The extension names are told apart by their characters.
proof fn lemma_extension_names()
    ensures
        "jpt"@ != "jp2"@ && "jpt"@ != "jph"@,
        "j2k"@ != "jp2"@ && "j2k"@ != "jph"@ && "j2k"@ != "jpt"@,
        "j2c"@ != "jp2"@ && "j2c"@ != "jph"@ && "j2c"@ != "jpt"@,
        "jpc"@ != "jp2"@ && "jpc"@ != "jph"@ && "jpc"@ != "jpt"@,
        "jhc"@ != "jp2"@ && "jhc"@ != "jph"@ && "jhc"@ != "jpt"@,
        "jph"@ != "jp2"@,
{
    reveal_strlit("jp2");
    reveal_strlit("jph");
    reveal_strlit("jpt");
    reveal_strlit("j2k");
    reveal_strlit("j2c");
    reveal_strlit("jpc");
    reveal_strlit("jhc");
    assert("jpt"@[2] != "jp2"@[2] && "jpt"@[2] != "jph"@[2]);
    assert("j2k"@[1] != "jp2"@[1] && "j2k"@[1] != "jph"@[1] && "j2k"@[1] != "jpt"@[1]);
    assert("j2c"@[1] != "jp2"@[1] && "j2c"@[1] != "jph"@[1] && "j2c"@[1] != "jpt"@[1]);
    assert("jpc"@[2] != "jp2"@[2] && "jpc"@[2] != "jph"@[2] && "jpc"@[2] != "jpt"@[2]);
    assert("jhc"@[1] != "jp2"@[1] && "jhc"@[1] != "jph"@[1] && "jhc"@[1] != "jpt"@[1]);
    assert("jph"@[2] != "jp2"@[2]);
}

fn same_text(a: &String, b: &str) -> (r: bool)
    ensures
        r == (a@ == b@),
{
    let c = b.to_owned();
    *a == c
}

/// Detects the format of JPEG 2000 data from its file extension, in any
/// case: `jp2` and `jph` (JP2 boxes), `jpt` (JPIP stream), `j2k`, `j2c`,
/// `jpc` and `jhc` (codestreams).
pub fn detect_format_from_extension(ext: Option<&str>) -> (r: Result<J2KFormat, String>)
    ensures
        ext is None ==> (r matches Err(e) && e@ == "No file extension"@),
        ext is Some ==> {
            let l = ascii_lower_str(ext.unwrap()@);
            match format_of_extension(l) {
                Some(f) => r == Ok::<J2KFormat, String>(f),
                None => (r matches Err(e) && e@ == "Unknown file extension: "@ + l),
            }
        },
{
    match ext {
        None => Err("No file extension".to_owned()),
        Some(x) => {
            proof {
                lemma_extension_names();
            }
            let l = to_ascii_lowercase(x);
            assert(l@ == ascii_lower_str(x@));
            if same_text(&l, "jp2") {
                assert(format_of_extension(l@) == Some(J2KFormat::JP2));
                Ok(J2KFormat::JP2)
            } else if same_text(&l, "jpt") {
                assert(format_of_extension(l@) == Some(J2KFormat::JPT));
                Ok(J2KFormat::JPT)
            } else if same_text(&l, "j2k") || same_text(&l, "j2c") || same_text(&l, "jpc") {
                assert(format_of_extension(l@) == Some(J2KFormat::J2K));
                Ok(J2KFormat::J2K)
            } else if same_text(&l, "jph") {
                assert(format_of_extension(l@) == Some(J2KFormat::JP2));
                Ok(J2KFormat::JP2)
            } else if same_text(&l, "jhc") {
                assert(format_of_extension(l@) == Some(J2KFormat::J2K));
                Ok(J2KFormat::J2K)
            } else {
                assert(format_of_extension(l@) is None);
                let msg = "Unknown file extension: ".to_owned();
                let e = msg.concat(l.as_str());
                assert(e@ == "Unknown file extension: "@ + l@);
                Err(e)
            }
        },
    }
}

} // verus!
