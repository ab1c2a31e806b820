//! The steps an encoder runs, in order: to validate its parameters, to
//! write the main header, and to end the codestream.
use vstd::prelude::*;

verus! {

/// A step of the encoder.
#[derive(Clone, Copy, Debug, PartialEq, Eq, Structural)]
pub enum J2KProcedure {
    BuildEncoder,
    EncodingValidation,
    MctValidation,
    InitInfo,
    WriteSoc,
    WriteSiz,
    WriteCod,
    WriteQcd,
    WriteAllCoc,
    WriteAllQcc,
    WriteTlm,
    WritePoc,
    WriteRegions,
    WriteCom,
    WriteMctDataGroup,
    GetEndHeader,
    CreateTcd,
    UpdateRates,
    WriteEoc,
    WriteUpdatedTlm,
    WriteEpc,
    EndEncoding,
    DestroyHeaderMemory,
}

/// The validation steps of an encoder.
pub fn opj_j2k_setup_encoding_validation() -> (r: Vec<J2KProcedure>)
    ensures
        r@ == seq![
            J2KProcedure::BuildEncoder,
            J2KProcedure::EncodingValidation,
            J2KProcedure::MctValidation,
        ],
{
    let mut v: Vec<J2KProcedure> = Vec::new();
    v.push(J2KProcedure::BuildEncoder);
    v.push(J2KProcedure::EncodingValidation);
    v.push(J2KProcedure::MctValidation);
    assert(v@ =~= seq![
        J2KProcedure::BuildEncoder,
        J2KProcedure::EncodingValidation,
        J2KProcedure::MctValidation,
    ]);
    v
}

/// The steps that write the main header: the fixed segments, then the TLM
/// segment (and for the profile 4 the POC segment) when tile-part lengths
/// are written, the regions of interest, the comment when there is one, the
/// custom component transformation for the profiles that carry one, the end
/// of the header in the codestream index when one is kept, and the set-up
/// of the tile coder and of the rates.
pub open spec fn header_writing_steps(tlm: bool, rsiz: u16, has_comment: bool, has_index: bool) -> Seq<
    J2KProcedure,
> {
    seq![
        J2KProcedure::InitInfo,
        J2KProcedure::WriteSoc,
        J2KProcedure::WriteSiz,
        J2KProcedure::WriteCod,
        J2KProcedure::WriteQcd,
        J2KProcedure::WriteAllCoc,
        J2KProcedure::WriteAllQcc,
    ] + (if tlm {
        seq![J2KProcedure::WriteTlm] + if rsiz == 4 {
            seq![J2KProcedure::WritePoc]
        } else {
            Seq::empty()
        }
    } else {
        Seq::empty()
    }) + seq![J2KProcedure::WriteRegions] + (if has_comment {
        seq![J2KProcedure::WriteCom]
    } else {
        Seq::empty()
    }) + (if rsiz & 0x8100 == 0x8100 {
        seq![J2KProcedure::WriteMctDataGroup]
    } else {
        Seq::empty()
    }) + (if has_index {
        seq![J2KProcedure::GetEndHeader]
    } else {
        Seq::empty()
    }) + seq![J2KProcedure::CreateTcd, J2KProcedure::UpdateRates]
}

/// The steps that write the main header of an encoder, given whether it
/// writes tile-part lengths, its profile, whether it has a comment and
/// whether it keeps a codestream index.
pub fn opj_j2k_setup_header_writing(tlm: bool, rsiz: u16, has_comment: bool, has_index: bool) -> (r: Vec<
    J2KProcedure,
>)
    ensures
        r@ == header_writing_steps(tlm, rsiz, has_comment, has_index),
{
    let mut v: Vec<J2KProcedure> = Vec::new();
    v.push(J2KProcedure::InitInfo);
    v.push(J2KProcedure::WriteSoc);
    v.push(J2KProcedure::WriteSiz);
    v.push(J2KProcedure::WriteCod);
    v.push(J2KProcedure::WriteQcd);
    v.push(J2KProcedure::WriteAllCoc);
    v.push(J2KProcedure::WriteAllQcc);
    if tlm {
        v.push(J2KProcedure::WriteTlm);
        if rsiz == 4 {
            v.push(J2KProcedure::WritePoc);
        }
    }
    v.push(J2KProcedure::WriteRegions);
    if has_comment {
        v.push(J2KProcedure::WriteCom);
    }
    if rsiz & 0x8100 == 0x8100 {
        v.push(J2KProcedure::WriteMctDataGroup);
    }
    if has_index {
        v.push(J2KProcedure::GetEndHeader);
    }
    v.push(J2KProcedure::CreateTcd);
    v.push(J2KProcedure::UpdateRates);
    assert(v@ =~= header_writing_steps(tlm, rsiz, has_comment, has_index));
    v
}

/// The steps that end a codestream: its end marker, the tile-part lengths
/// when they are written, its size in the index, and the release of what
/// encoding used.
pub open spec fn end_compress_steps(tlm: bool) -> Seq<J2KProcedure> {
    seq![J2KProcedure::WriteEoc] + (if tlm {
        seq![J2KProcedure::WriteUpdatedTlm]
    } else {
        Seq::empty()
    }) + seq![
        J2KProcedure::WriteEpc,
        J2KProcedure::EndEncoding,
        J2KProcedure::DestroyHeaderMemory,
    ]
}

/// The steps that end the codestream of an encoder.
pub fn opj_j2k_setup_end_compress(tlm: bool) -> (r: Vec<J2KProcedure>)
    ensures
        r@ == end_compress_steps(tlm),
{
    let mut v: Vec<J2KProcedure> = Vec::new();
    v.push(J2KProcedure::WriteEoc);
    if tlm {
        v.push(J2KProcedure::WriteUpdatedTlm);
    }
    v.push(J2KProcedure::WriteEpc);
    v.push(J2KProcedure::EndEncoding);
    v.push(J2KProcedure::DestroyHeaderMemory);
    assert(v@ =~= end_compress_steps(tlm));
    v
}

} // verus!
