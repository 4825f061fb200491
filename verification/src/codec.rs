//! The wire protocol codec.
//!
//! A client frame starts with one discriminant byte: `0x1` marks the
//! raw-framed upload (`AddFile`), whose payload travels as the
//! unencoded tail of the frame; `0x0` marks a control message in the
//! generic family, encoded as a variant byte followed by its fields.
//! Server frames are all generic and start with their variant byte
//! directly.  Integers travel little endian; strings as a 32-bit byte
//! length and UTF-8 bytes; lists as a 32-bit count and the items in
//! order.  Decoding is strict: unknown discriminants, truncated
//! frames, invalid UTF-8 and trailing bytes are all rejected.

use vstd::prelude::*;
use vstd::bytes::spec_u32_to_le_bytes;
use vstd::bytes::spec_u32_from_le_bytes;
use vstd::bytes::spec_u64_to_le_bytes;
use vstd::bytes::spec_u64_from_le_bytes;
use vstd::bytes::spec_u128_to_le_bytes;
use vstd::bytes::spec_u128_from_le_bytes;
use vstd::bytes::lemma_auto_spec_u32_to_from_le_bytes;
use vstd::bytes::lemma_auto_spec_u64_to_from_le_bytes;
use vstd::bytes::lemma_auto_spec_u128_to_from_le_bytes;
use vstd::utf8::encode_utf8;
use vstd::utf8::decode_utf8;
use vstd::utf8::valid_utf8;

use crate::admin_panel::ClientPacket;
use crate::admin_panel::ClientPacketView;
use crate::admin_panel::FileInfo;
use crate::admin_panel::FolderInfo;
use crate::admin_panel::Log;
use crate::admin_panel::PatchNote;
use crate::admin_panel::ServerPacket;
use crate::admin_panel::FileInfoView;
use crate::admin_panel::FolderInfoView;
use crate::admin_panel::LogLevel;
use crate::admin_panel::LogView;
use crate::admin_panel::PatchNoteView;
use crate::admin_panel::ServerPacketView;
use crate::admin_panel::level_rank;

verus! {

broadcast use vstd::utf8::encode_utf8_valid_utf8, vstd::utf8::encode_utf8_decode_utf8;

// ---------------------------------------------------------------------
// Primitive encodings.
// ---------------------------------------------------------------------

pub open spec fn enc_u32(x: u32) -> Seq<u8> {
    spec_u32_to_le_bytes(x)
}

pub open spec fn enc_u64(x: u64) -> Seq<u8> {
    spec_u64_to_le_bytes(x)
}

pub open spec fn enc_u128(x: u128) -> Seq<u8> {
    spec_u128_to_le_bytes(x)
}

pub open spec fn enc_i64(x: i64) -> Seq<u8> {
    spec_u64_to_le_bytes(x as u64)
}

pub open spec fn enc_bool(x: bool) -> Seq<u8> {
    seq![if x { 1u8 } else { 0u8 }]
}

pub open spec fn enc_level(l: LogLevel) -> Seq<u8> {
    seq![level_rank(l) as u8]
}

/// A string on the wire: 32-bit byte length, then UTF-8 bytes.
pub open spec fn enc_str(s: Seq<char>) -> Seq<u8> {
    enc_u32(encode_utf8(s).len() as u32) + encode_utf8(s)
}

/// A string fits on the wire when its UTF-8 form fits the length
/// field.
pub open spec fn str_encodable(s: Seq<char>) -> bool {
    encode_utf8(s).len() <= u32::MAX
}

// ---------------------------------------------------------------------
// Primitive decoders: partial parsers over the whole frame and a
// cursor position.
// ---------------------------------------------------------------------

pub open spec fn dec_u32(b: Seq<u8>, pos: int) -> Option<(u32, int)> {
    if 0 <= pos && pos + 4 <= b.len() {
        Some((spec_u32_from_le_bytes(b.subrange(pos, pos + 4)), pos + 4))
    } else {
        None
    }
}

pub open spec fn dec_u64(b: Seq<u8>, pos: int) -> Option<(u64, int)> {
    if 0 <= pos && pos + 8 <= b.len() {
        Some((spec_u64_from_le_bytes(b.subrange(pos, pos + 8)), pos + 8))
    } else {
        None
    }
}

pub open spec fn dec_u128(b: Seq<u8>, pos: int) -> Option<(u128, int)> {
    if 0 <= pos && pos + 16 <= b.len() {
        Some((spec_u128_from_le_bytes(b.subrange(pos, pos + 16)), pos + 16))
    } else {
        None
    }
}

pub open spec fn dec_i64(b: Seq<u8>, pos: int) -> Option<(i64, int)> {
    match dec_u64(b, pos) {
        Some((x, p)) => Some(((x as i64), p)),
        None => None,
    }
}

pub open spec fn dec_bool(b: Seq<u8>, pos: int) -> Option<(bool, int)> {
    if 0 <= pos && pos + 1 <= b.len() {
        if b[pos] == 0 {
            Some((false, pos + 1))
        } else if b[pos] == 1 {
            Some((true, pos + 1))
        } else {
            None
        }
    } else {
        None
    }
}

pub open spec fn dec_level(b: Seq<u8>, pos: int) -> Option<(LogLevel, int)> {
    if 0 <= pos && pos + 1 <= b.len() {
        if b[pos] == 0 {
            Some((LogLevel::Debug, pos + 1))
        } else if b[pos] == 1 {
            Some((LogLevel::Info, pos + 1))
        } else if b[pos] == 2 {
            Some((LogLevel::Warning, pos + 1))
        } else if b[pos] == 3 {
            Some((LogLevel::Error, pos + 1))
        } else {
            None
        }
    } else {
        None
    }
}

pub open spec fn dec_str(b: Seq<u8>, pos: int) -> Option<(Seq<char>, int)> {
    match dec_u32(b, pos) {
        Some((n, p)) => if p + n <= b.len() {
            let bs = b.subrange(p, p + n);
            if valid_utf8(bs) {
                Some((decode_utf8(bs), p + n))
            } else {
                None
            }
        } else {
            None
        },
        None => None,
    }
}

// ---------------------------------------------------------------------
// Round trips of the primitives.
// ---------------------------------------------------------------------

/// The length facts of the integer encodings.
pub proof fn proof_enc_u32_len(x: u32)
    ensures
        enc_u32(x).len() == 4,
{
    lemma_auto_spec_u32_to_from_le_bytes();
}

pub proof fn proof_enc_u64_len(x: u64)
    ensures
        enc_u64(x).len() == 8,
{
    lemma_auto_spec_u64_to_from_le_bytes();
}

pub proof fn proof_enc_u128_len(x: u128)
    ensures
        enc_u128(x).len() == 16,
{
    lemma_auto_spec_u128_to_from_le_bytes();
}

pub proof fn lemma_dec_u32(b: Seq<u8>, pos: int, x: u32)
    requires
        0 <= pos,
        pos + 4 <= b.len(),
        b.subrange(pos, pos + 4) == enc_u32(x),
    ensures
        dec_u32(b, pos) == Some((x, pos + 4)),
{
    lemma_auto_spec_u32_to_from_le_bytes();
    assert(spec_u32_to_le_bytes(x).len() == 4);
    assert(spec_u32_from_le_bytes(spec_u32_to_le_bytes(x)) == x);
}

pub proof fn lemma_dec_u64(b: Seq<u8>, pos: int, x: u64)
    requires
        0 <= pos,
        pos + 8 <= b.len(),
        b.subrange(pos, pos + 8) == enc_u64(x),
    ensures
        dec_u64(b, pos) == Some((x, pos + 8)),
{
    lemma_auto_spec_u64_to_from_le_bytes();
    assert(spec_u64_to_le_bytes(x).len() == 8);
    assert(spec_u64_from_le_bytes(spec_u64_to_le_bytes(x)) == x);
}

pub proof fn lemma_dec_u128(b: Seq<u8>, pos: int, x: u128)
    requires
        0 <= pos,
        pos + 16 <= b.len(),
        b.subrange(pos, pos + 16) == enc_u128(x),
    ensures
        dec_u128(b, pos) == Some((x, pos + 16)),
{
    lemma_auto_spec_u128_to_from_le_bytes();
    assert(spec_u128_to_le_bytes(x).len() == 16);
    assert(spec_u128_from_le_bytes(spec_u128_to_le_bytes(x)) == x);
}

pub proof fn lemma_dec_i64(b: Seq<u8>, pos: int, x: i64)
    requires
        0 <= pos,
        pos + 8 <= b.len(),
        b.subrange(pos, pos + 8) == enc_i64(x),
    ensures
        dec_i64(b, pos) == Some((x, pos + 8)),
{
    lemma_dec_u64(b, pos, x as u64);
    assert(((x as u64) as i64) == x) by (bit_vector);
}

pub proof fn lemma_dec_bool(b: Seq<u8>, pos: int, x: bool)
    requires
        0 <= pos,
        pos + 1 <= b.len(),
        b.subrange(pos, pos + 1) == enc_bool(x),
    ensures
        dec_bool(b, pos) == Some((x, pos + 1)),
{
    assert(b[pos] == enc_bool(x)[0]);
}

pub proof fn lemma_dec_level(b: Seq<u8>, pos: int, x: LogLevel)
    requires
        0 <= pos,
        pos + 1 <= b.len(),
        b.subrange(pos, pos + 1) == enc_level(x),
    ensures
        dec_level(b, pos) == Some((x, pos + 1)),
{
    assert(b[pos] == enc_level(x)[0]);
}

pub proof fn lemma_dec_str(b: Seq<u8>, pos: int, s: Seq<char>)
    requires
        0 <= pos,
        str_encodable(s),
        pos + enc_str(s).len() <= b.len(),
        b.subrange(pos, pos + enc_str(s).len()) == enc_str(s),
    ensures
        dec_str(b, pos) == Some((s, pos + enc_str(s).len())),
{
    let u = encode_utf8(s);
    let n = u.len() as u32;
    proof_enc_u32_len(n);
    assert(enc_str(s).len() == 4 + u.len());
    assert(b.subrange(pos, pos + 4) =~= enc_u32(n));
    lemma_dec_u32(b, pos, n);
    let m = u.len() as int;
    assert forall|i: int| 0 <= i < m implies b.subrange(pos + 4, pos + 4 + m)[i] == u[i] by {
        assert(b.subrange(pos, pos + enc_str(s).len() as int)[4 + i] == enc_str(s)[4 + i]);
    }
    assert(b.subrange(pos + 4, pos + 4 + n) =~= u);
    assert(valid_utf8(u));
    assert(decode_utf8(u) == s);
}

/// A slice of a located slice of the frame is located at the summed
/// offset.
pub proof fn lemma_subrange_slice(b: Seq<u8>, pos: int, total: Seq<u8>, off: int, part: Seq<u8>)
    requires
        0 <= pos,
        pos + total.len() <= b.len(),
        b.subrange(pos, pos + total.len()) == total,
        0 <= off,
        off + part.len() <= total.len(),
        total.subrange(off, off + part.len()) == part,
    ensures
        b.subrange(pos + off, pos + off + part.len()) == part,
{
    assert forall|i: int| 0 <= i < part.len() implies b.subrange(
        pos + off,
        pos + off + part.len(),
    )[i] == part[i] by {
        assert(b.subrange(pos, pos + total.len())[off + i] == total[off + i]);
        assert(total.subrange(off, off + part.len())[i] == part[i]);
    }
    assert(b.subrange(pos + off, pos + off + part.len()) =~= part);
}

// ---------------------------------------------------------------------
// The client family.
// ---------------------------------------------------------------------

/// Whether a client message fits the wire format's length fields.
pub open spec fn client_encodable(p: ClientPacketView) -> bool {
    match p {
        ClientPacketView::FileList { dir } => str_encodable(dir),
        ClientPacketView::RemoveFile { dir, name } => str_encodable(dir) && str_encodable(name),
        ClientPacketView::RemoveFolder { dir, name } => str_encodable(dir) && str_encodable(name),
        ClientPacketView::AddFile { id, dir, name, file } => str_encodable(dir) && str_encodable(
            name,
        ),
        ClientPacketView::PatchNotes { take, skip } => true,
        ClientPacketView::SavePatchNote { id, data } => str_encodable(data),
        ClientPacketView::AddPatchNote { data } => str_encodable(data),
        ClientPacketView::DeletePatchNote { id } => true,
        ClientPacketView::RequestEditPatchNote { id } => true,
        ClientPacketView::CreateFolder { dir, name } => str_encodable(dir) && str_encodable(name),
        ClientPacketView::SkipFileHashCheck { dir, name } => str_encodable(dir) && str_encodable(
            name,
        ),
        ClientPacketView::Logs => true,
    }
}

/// The encoding of a client message.  `AddFile` takes the raw-framed
/// path under discriminant `0x1`; every other message travels under
/// `0x0` with a variant byte.
pub open spec fn spec_client_encode(p: ClientPacketView) -> Seq<u8> {
    match p {
        ClientPacketView::FileList { dir } => seq![0u8, 0u8] + enc_str(dir),
        ClientPacketView::RemoveFile { dir, name } => seq![0u8, 1u8] + enc_str(dir) + enc_str(
            name,
        ),
        ClientPacketView::RemoveFolder { dir, name } => seq![0u8, 2u8] + enc_str(dir) + enc_str(
            name,
        ),
        ClientPacketView::CreateFolder { dir, name } => seq![0u8, 3u8] + enc_str(dir) + enc_str(
            name,
        ),
        ClientPacketView::SkipFileHashCheck { dir, name } => seq![0u8, 4u8] + enc_str(dir)
            + enc_str(name),
        ClientPacketView::PatchNotes { take, skip } => seq![0u8, 5u8] + enc_u32(take) + enc_u32(
            skip,
        ),
        ClientPacketView::SavePatchNote { id, data } => seq![0u8, 6u8] + enc_u32(id) + enc_str(
            data,
        ),
        ClientPacketView::AddPatchNote { data } => seq![0u8, 7u8] + enc_str(data),
        ClientPacketView::DeletePatchNote { id } => seq![0u8, 8u8] + enc_u32(id),
        ClientPacketView::RequestEditPatchNote { id } => seq![0u8, 9u8] + enc_u32(id),
        ClientPacketView::Logs => seq![0u8, 10u8],
        ClientPacketView::AddFile { id, dir, name, file } => seq![1u8] + enc_str(dir) + enc_str(
            name,
        ) + enc_u128(id) + file,
    }
}

/// The decoding of a client frame; `None` on malformed or truncated
/// input, on unknown discriminants, and on trailing bytes.
pub open spec fn spec_client_decode(b: Seq<u8>) -> Option<ClientPacketView> {
    if b.len() < 1 {
        None
    } else if b[0] == 1 {
        match dec_str(b, 1) {
            Some((dir, p1)) => match dec_str(b, p1) {
                Some((name, p2)) => if p2 + 16 <= b.len() {
                    Some(
                        ClientPacketView::AddFile {
                            id: spec_u128_from_le_bytes(b.subrange(p2, p2 + 16)),
                            dir,
                            name,
                            file: b.skip(p2 + 16),
                        },
                    )
                } else {
                    None
                },
                None => None,
            },
            None => None,
        }
    } else if b[0] == 0 && b.len() >= 2 {
        let t = b[1];
        if t == 0 {
            match dec_str(b, 2) {
                Some((dir, p)) => if p == b.len() {
                    Some(ClientPacketView::FileList { dir })
                } else {
                    None
                },
                None => None,
            }
        } else if t == 1 || t == 2 || t == 3 || t == 4 {
            match dec_str(b, 2) {
                Some((dir, p1)) => match dec_str(b, p1) {
                    Some((name, p)) => if p == b.len() {
                        if t == 1 {
                            Some(ClientPacketView::RemoveFile { dir, name })
                        } else if t == 2 {
                            Some(ClientPacketView::RemoveFolder { dir, name })
                        } else if t == 3 {
                            Some(ClientPacketView::CreateFolder { dir, name })
                        } else {
                            Some(ClientPacketView::SkipFileHashCheck { dir, name })
                        }
                    } else {
                        None
                    },
                    None => None,
                },
                None => None,
            }
        } else if t == 5 {
            match dec_u32(b, 2) {
                Some((take, p1)) => match dec_u32(b, p1) {
                    Some((skip, p)) => if p == b.len() {
                        Some(ClientPacketView::PatchNotes { take, skip })
                    } else {
                        None
                    },
                    None => None,
                },
                None => None,
            }
        } else if t == 6 {
            match dec_u32(b, 2) {
                Some((id, p1)) => match dec_str(b, p1) {
                    Some((data, p)) => if p == b.len() {
                        Some(ClientPacketView::SavePatchNote { id, data })
                    } else {
                        None
                    },
                    None => None,
                },
                None => None,
            }
        } else if t == 7 {
            match dec_str(b, 2) {
                Some((data, p)) => if p == b.len() {
                    Some(ClientPacketView::AddPatchNote { data })
                } else {
                    None
                },
                None => None,
            }
        } else if t == 8 || t == 9 {
            match dec_u32(b, 2) {
                Some((id, p)) => if p == b.len() {
                    if t == 8 {
                        Some(ClientPacketView::DeletePatchNote { id })
                    } else {
                        Some(ClientPacketView::RequestEditPatchNote { id })
                    }
                } else {
                    None
                },
                None => None,
            }
        } else if t == 10 {
            if b.len() == 2 {
                Some(ClientPacketView::Logs)
            } else {
                None
            }
        } else {
            None
        }
    } else {
        None
    }
}

/// Decoding a client message's encoding restores it exactly: the
/// raw-framed upload round-trips for every byte payload, and so does
/// every control message of the generic family.
#[verifier::rlimit(100)]
pub proof fn lemma_client_round_trip(p: ClientPacketView)
    requires
        client_encodable(p),
    ensures
        spec_client_decode(spec_client_encode(p)) == Some(p),
{
    let b = spec_client_encode(p);
    match p {
        ClientPacketView::FileList { dir } => {
            let e1 = enc_str(dir);
            assert(b.subrange(2, 2 + e1.len() as int) =~= e1);
            lemma_dec_str(b, 2, dir);
        },
        ClientPacketView::RemoveFile { dir, name } => {
            lemma_two_str(b, dir, name);
        },
        ClientPacketView::RemoveFolder { dir, name } => {
            lemma_two_str(b, dir, name);
        },
        ClientPacketView::CreateFolder { dir, name } => {
            lemma_two_str(b, dir, name);
        },
        ClientPacketView::SkipFileHashCheck { dir, name } => {
            lemma_two_str(b, dir, name);
        },
        ClientPacketView::PatchNotes { take, skip } => {
            let e1 = enc_u32(take);
            let e2 = enc_u32(skip);
            proof_enc_u32_len(take);
            proof_enc_u32_len(skip);
            assert(b.subrange(2, 6) =~= e1);
            assert(b.subrange(6, 10) =~= e2);
            lemma_dec_u32(b, 2, take);
            lemma_dec_u32(b, 6, skip);
        },
        ClientPacketView::SavePatchNote { id, data } => {
            let e1 = enc_u32(id);
            let e2 = enc_str(data);
            proof_enc_u32_len(id);
            assert(b.subrange(2, 6) =~= e1);
            assert(b.subrange(6, 6 + e2.len() as int) =~= e2);
            lemma_dec_u32(b, 2, id);
            lemma_dec_str(b, 6, data);
        },
        ClientPacketView::AddPatchNote { data } => {
            let e1 = enc_str(data);
            assert(b.subrange(2, 2 + e1.len() as int) =~= e1);
            lemma_dec_str(b, 2, data);
        },
        ClientPacketView::DeletePatchNote { id } => {
            proof_enc_u32_len(id);
            assert(b.subrange(2, 6) =~= enc_u32(id));
            lemma_dec_u32(b, 2, id);
        },
        ClientPacketView::RequestEditPatchNote { id } => {
            proof_enc_u32_len(id);
            assert(b.subrange(2, 6) =~= enc_u32(id));
            lemma_dec_u32(b, 2, id);
        },
        ClientPacketView::Logs => {
            assert(b.len() == 2);
        },
        ClientPacketView::AddFile { id, dir, name, file } => {
            let e1 = enc_str(dir);
            let e2 = enc_str(name);
            let e3 = enc_u128(id);
            proof_enc_u128_len(id);
            let p1 = 1 + e1.len() as int;
            let p2 = p1 + e2.len() as int;
            let p3 = p2 + 16;
            assert(b.subrange(1, p1) =~= e1);
            lemma_dec_str(b, 1, dir);
            assert(b.subrange(p1, p2) =~= e2);
            lemma_dec_str(b, p1, name);
            assert(b.subrange(p2, p3) =~= e3);
            lemma_dec_u128(b, p2, id);
            assert(b.skip(p3) =~= file);
        },
    }
}

// ---------------------------------------------------------------------
// The server family: records.
// ---------------------------------------------------------------------

pub open spec fn enc_file_info(f: FileInfoView) -> Seq<u8> {
    enc_str(f.name) + enc_u64(f.size) + enc_i64(f.created) + enc_i64(f.modified_at) + enc_u32(
        f.updated_by,
    ) + enc_bool(f.skip_hash_check) + enc_bool(f.deleted)
}

pub open spec fn dec_file_info(b: Seq<u8>, pos: int) -> Option<(FileInfoView, int)> {
    match dec_str(b, pos) {
        Some((name, p1)) => match dec_u64(b, p1) {
            Some((size, p2)) => match dec_i64(b, p2) {
                Some((created, p3)) => match dec_i64(b, p3) {
                    Some((modified_at, p4)) => match dec_u32(b, p4) {
                        Some((updated_by, p5)) => match dec_bool(b, p5) {
                            Some((skip_hash_check, p6)) => match dec_bool(b, p6) {
                                Some((deleted, p7)) => Some(
                                    (
                                        FileInfoView {
                                            name,
                                            size,
                                            created,
                                            modified_at,
                                            updated_by,
                                            skip_hash_check,
                                            deleted,
                                        },
                                        p7,
                                    ),
                                ),
                                None => None,
                            },
                            None => None,
                        },
                        None => None,
                    },
                    None => None,
                },
                None => None,
            },
            None => None,
        },
        None => None,
    }
}

#[verifier::rlimit(100)]
pub proof fn lemma_dec_file_info(b: Seq<u8>, pos: int, f: FileInfoView)
    requires
        0 <= pos,
        str_encodable(f.name),
        pos + enc_file_info(f).len() <= b.len(),
        b.subrange(pos, pos + enc_file_info(f).len()) == enc_file_info(f),
    ensures
        dec_file_info(b, pos) == Some((f, pos + enc_file_info(f).len())),
{
    let total = enc_file_info(f);
    let e1 = enc_str(f.name);
    proof_enc_u32_len(f.updated_by);
    proof_enc_u32_len(encode_utf8(f.name).len() as u32);
    proof_enc_u64_len(f.size);
    proof_enc_u64_len(f.created as u64);
    proof_enc_u64_len(f.modified_at as u64);
    let l1 = e1.len() as int;
    assert(total.subrange(0, l1) =~= e1);
    lemma_subrange_slice(b, pos, total, 0, e1);
    lemma_dec_str(b, pos, f.name);
    let p1 = pos + l1;
    assert(total.subrange(l1, l1 + 8) =~= enc_u64(f.size));
    lemma_subrange_slice(b, pos, total, l1, enc_u64(f.size));
    lemma_dec_u64(b, p1, f.size);
    let p2 = p1 + 8;
    assert(total.subrange(l1 + 8, l1 + 16) =~= enc_i64(f.created));
    lemma_subrange_slice(b, pos, total, l1 + 8, enc_i64(f.created));
    lemma_dec_i64(b, p2, f.created);
    let p3 = p2 + 8;
    assert(total.subrange(l1 + 16, l1 + 24) =~= enc_i64(f.modified_at));
    lemma_subrange_slice(b, pos, total, l1 + 16, enc_i64(f.modified_at));
    lemma_dec_i64(b, p3, f.modified_at);
    let p4 = p3 + 8;
    assert(total.subrange(l1 + 24, l1 + 28) =~= enc_u32(f.updated_by));
    lemma_subrange_slice(b, pos, total, l1 + 24, enc_u32(f.updated_by));
    lemma_dec_u32(b, p4, f.updated_by);
    let p5 = p4 + 4;
    assert(total.subrange(l1 + 28, l1 + 29) =~= enc_bool(f.skip_hash_check));
    lemma_subrange_slice(b, pos, total, l1 + 28, enc_bool(f.skip_hash_check));
    lemma_dec_bool(b, p5, f.skip_hash_check);
    let p6 = p5 + 1;
    assert(total.subrange(l1 + 29, l1 + 30) =~= enc_bool(f.deleted));
    lemma_subrange_slice(b, pos, total, l1 + 29, enc_bool(f.deleted));
    lemma_dec_bool(b, p6, f.deleted);
    assert(dec_file_info(b, pos)->Some_0.0 =~= f);
}

pub open spec fn enc_folder_info(f: FolderInfoView) -> Seq<u8> {
    enc_str(f.name) + enc_u64(f.size) + enc_i64(f.created) + enc_i64(f.modified_at) + enc_u32(
        f.updated_by,
    ) + enc_bool(f.deleted)
}

pub open spec fn dec_folder_info(b: Seq<u8>, pos: int) -> Option<(FolderInfoView, int)> {
    match dec_str(b, pos) {
        Some((name, p1)) => match dec_u64(b, p1) {
            Some((size, p2)) => match dec_i64(b, p2) {
                Some((created, p3)) => match dec_i64(b, p3) {
                    Some((modified_at, p4)) => match dec_u32(b, p4) {
                        Some((updated_by, p5)) => match dec_bool(b, p5) {
                            Some((deleted, p6)) => Some(
                                (
                                    FolderInfoView {
                                        name,
                                        size,
                                        created,
                                        modified_at,
                                        updated_by,
                                        deleted,
                                    },
                                    p6,
                                ),
                            ),
                            None => None,
                        },
                        None => None,
                    },
                    None => None,
                },
                None => None,
            },
            None => None,
        },
        None => None,
    }
}

#[verifier::rlimit(100)]
pub proof fn lemma_dec_folder_info(b: Seq<u8>, pos: int, f: FolderInfoView)
    requires
        0 <= pos,
        str_encodable(f.name),
        pos + enc_folder_info(f).len() <= b.len(),
        b.subrange(pos, pos + enc_folder_info(f).len()) == enc_folder_info(f),
    ensures
        dec_folder_info(b, pos) == Some((f, pos + enc_folder_info(f).len())),
{
    let total = enc_folder_info(f);
    let e1 = enc_str(f.name);
    proof_enc_u32_len(f.updated_by);
    proof_enc_u32_len(encode_utf8(f.name).len() as u32);
    proof_enc_u64_len(f.size);
    proof_enc_u64_len(f.created as u64);
    proof_enc_u64_len(f.modified_at as u64);
    let l1 = e1.len() as int;
    assert(total.subrange(0, l1) =~= e1);
    lemma_subrange_slice(b, pos, total, 0, e1);
    lemma_dec_str(b, pos, f.name);
    let p1 = pos + l1;
    assert(total.subrange(l1, l1 + 8) =~= enc_u64(f.size));
    lemma_subrange_slice(b, pos, total, l1, enc_u64(f.size));
    lemma_dec_u64(b, p1, f.size);
    let p2 = p1 + 8;
    assert(total.subrange(l1 + 8, l1 + 16) =~= enc_i64(f.created));
    lemma_subrange_slice(b, pos, total, l1 + 8, enc_i64(f.created));
    lemma_dec_i64(b, p2, f.created);
    let p3 = p2 + 8;
    assert(total.subrange(l1 + 16, l1 + 24) =~= enc_i64(f.modified_at));
    lemma_subrange_slice(b, pos, total, l1 + 16, enc_i64(f.modified_at));
    lemma_dec_i64(b, p3, f.modified_at);
    let p4 = p3 + 8;
    assert(total.subrange(l1 + 24, l1 + 28) =~= enc_u32(f.updated_by));
    lemma_subrange_slice(b, pos, total, l1 + 24, enc_u32(f.updated_by));
    lemma_dec_u32(b, p4, f.updated_by);
    let p5 = p4 + 4;
    assert(total.subrange(l1 + 28, l1 + 29) =~= enc_bool(f.deleted));
    lemma_subrange_slice(b, pos, total, l1 + 28, enc_bool(f.deleted));
    lemma_dec_bool(b, p5, f.deleted);
    assert(dec_folder_info(b, pos)->Some_0.0 =~= f);
}

pub open spec fn enc_note(p: PatchNoteView) -> Seq<u8> {
    enc_u32(p.id) + enc_str(p.data)
}

pub open spec fn dec_note(b: Seq<u8>, pos: int) -> Option<(PatchNoteView, int)> {
    match dec_u32(b, pos) {
        Some((id, p1)) => match dec_str(b, p1) {
            Some((data, p2)) => Some((PatchNoteView { id, data }, p2)),
            None => None,
        },
        None => None,
    }
}

pub proof fn lemma_dec_note(b: Seq<u8>, pos: int, p: PatchNoteView)
    requires
        0 <= pos,
        str_encodable(p.data),
        pos + enc_note(p).len() <= b.len(),
        b.subrange(pos, pos + enc_note(p).len()) == enc_note(p),
    ensures
        dec_note(b, pos) == Some((p, pos + enc_note(p).len())),
{
    let total = enc_note(p);
    proof_enc_u32_len(p.id);
    proof_enc_u32_len(encode_utf8(p.data).len() as u32);
    assert(total.subrange(0, 4) =~= enc_u32(p.id));
    lemma_subrange_slice(b, pos, total, 0, enc_u32(p.id));
    lemma_dec_u32(b, pos, p.id);
    let e2 = enc_str(p.data);
    assert(total.subrange(4, 4 + e2.len() as int) =~= e2);
    lemma_subrange_slice(b, pos, total, 4, e2);
    lemma_dec_str(b, pos + 4, p.data);
    assert(dec_note(b, pos)->Some_0.0 =~= p);
}

pub open spec fn enc_log(l: LogView) -> Seq<u8> {
    enc_level(l.level) + enc_str(l.producer) + enc_str(l.log) + enc_i64(l.time)
}

pub open spec fn dec_log(b: Seq<u8>, pos: int) -> Option<(LogView, int)> {
    match dec_level(b, pos) {
        Some((level, p1)) => match dec_str(b, p1) {
            Some((producer, p2)) => match dec_str(b, p2) {
                Some((log, p3)) => match dec_i64(b, p3) {
                    Some((time, p4)) => Some((LogView { level, producer, log, time }, p4)),
                    None => None,
                },
                None => None,
            },
            None => None,
        },
        None => None,
    }
}

#[verifier::rlimit(100)]
pub proof fn lemma_dec_log(b: Seq<u8>, pos: int, l: LogView)
    requires
        0 <= pos,
        str_encodable(l.producer),
        str_encodable(l.log),
        pos + enc_log(l).len() <= b.len(),
        b.subrange(pos, pos + enc_log(l).len()) == enc_log(l),
    ensures
        dec_log(b, pos) == Some((l, pos + enc_log(l).len())),
{
    let total = enc_log(l);
    proof_enc_u32_len(encode_utf8(l.producer).len() as u32);
    proof_enc_u32_len(encode_utf8(l.log).len() as u32);
    proof_enc_u64_len(l.time as u64);
    assert(total.subrange(0, 1) =~= enc_level(l.level));
    lemma_subrange_slice(b, pos, total, 0, enc_level(l.level));
    lemma_dec_level(b, pos, l.level);
    let e2 = enc_str(l.producer);
    let l2 = e2.len() as int;
    assert(total.subrange(1, 1 + l2) =~= e2);
    lemma_subrange_slice(b, pos, total, 1, e2);
    lemma_dec_str(b, pos + 1, l.producer);
    let e3 = enc_str(l.log);
    let l3 = e3.len() as int;
    assert(total.subrange(1 + l2, 1 + l2 + l3) =~= e3);
    lemma_subrange_slice(b, pos, total, 1 + l2, e3);
    lemma_dec_str(b, pos + 1 + l2, l.log);
    assert(total.subrange(1 + l2 + l3, 1 + l2 + l3 + 8) =~= enc_i64(l.time));
    lemma_subrange_slice(b, pos, total, 1 + l2 + l3, enc_i64(l.time));
    lemma_dec_i64(b, pos + 1 + l2 + l3, l.time);
    assert(dec_log(b, pos)->Some_0.0 =~= l);
}

// ---------------------------------------------------------------------
// The server family: lists.
// ---------------------------------------------------------------------

pub open spec fn enc_files(s: Seq<FileInfoView>) -> Seq<u8>
    decreases s.len(),
{
    if s.len() == 0 {
        Seq::empty()
    } else {
        enc_files(s.drop_last()) + enc_file_info(s.last())
    }
}

pub open spec fn enc_folders(s: Seq<FolderInfoView>) -> Seq<u8>
    decreases s.len(),
{
    if s.len() == 0 {
        Seq::empty()
    } else {
        enc_folders(s.drop_last()) + enc_folder_info(s.last())
    }
}

pub open spec fn enc_notes(s: Seq<PatchNoteView>) -> Seq<u8>
    decreases s.len(),
{
    if s.len() == 0 {
        Seq::empty()
    } else {
        enc_notes(s.drop_last()) + enc_note(s.last())
    }
}

pub open spec fn enc_logs(s: Seq<LogView>) -> Seq<u8>
    decreases s.len(),
{
    if s.len() == 0 {
        Seq::empty()
    } else {
        enc_logs(s.drop_last()) + enc_log(s.last())
    }
}

pub open spec fn dec_files(b: Seq<u8>, pos: int, n: nat) -> Option<(Seq<FileInfoView>, int)>
    decreases n,
{
    if n == 0 {
        Some((Seq::empty(), pos))
    } else {
        match dec_file_info(b, pos) {
            Some((f, p1)) => match dec_files(b, p1, (n - 1) as nat) {
                Some((fs, p2)) => Some((seq![f] + fs, p2)),
                None => None,
            },
            None => None,
        }
    }
}

pub open spec fn dec_folders(b: Seq<u8>, pos: int, n: nat) -> Option<(Seq<FolderInfoView>, int)>
    decreases n,
{
    if n == 0 {
        Some((Seq::empty(), pos))
    } else {
        match dec_folder_info(b, pos) {
            Some((f, p1)) => match dec_folders(b, p1, (n - 1) as nat) {
                Some((fs, p2)) => Some((seq![f] + fs, p2)),
                None => None,
            },
            None => None,
        }
    }
}

pub open spec fn dec_notes(b: Seq<u8>, pos: int, n: nat) -> Option<(Seq<PatchNoteView>, int)>
    decreases n,
{
    if n == 0 {
        Some((Seq::empty(), pos))
    } else {
        match dec_note(b, pos) {
            Some((f, p1)) => match dec_notes(b, p1, (n - 1) as nat) {
                Some((fs, p2)) => Some((seq![f] + fs, p2)),
                None => None,
            },
            None => None,
        }
    }
}

pub open spec fn dec_logs(b: Seq<u8>, pos: int, n: nat) -> Option<(Seq<LogView>, int)>
    decreases n,
{
    if n == 0 {
        Some((Seq::empty(), pos))
    } else {
        match dec_log(b, pos) {
            Some((f, p1)) => match dec_logs(b, p1, (n - 1) as nat) {
                Some((fs, p2)) => Some((seq![f] + fs, p2)),
                None => None,
            },
            None => None,
        }
    }
}

pub open spec fn files_encodable(s: Seq<FileInfoView>) -> bool {
    forall|i: int| 0 <= i < s.len() ==> str_encodable(#[trigger] s[i].name)
}

pub open spec fn folders_encodable(s: Seq<FolderInfoView>) -> bool {
    forall|i: int| 0 <= i < s.len() ==> str_encodable(#[trigger] s[i].name)
}

pub open spec fn notes_encodable(s: Seq<PatchNoteView>) -> bool {
    forall|i: int| 0 <= i < s.len() ==> str_encodable(#[trigger] s[i].data)
}

pub open spec fn logs_encodable(s: Seq<LogView>) -> bool {
    forall|i: int|
        0 <= i < s.len() ==> str_encodable(#[trigger] s[i].producer) && str_encodable(s[i].log)
}

proof fn lemma_enc_files_cons(s: Seq<FileInfoView>)
    requires
        s.len() > 0,
    ensures
        enc_files(s) == enc_file_info(s[0]) + enc_files(s.skip(1)),
    decreases s.len(),
{
    if s.len() == 1 {
        assert(s.drop_last() =~= Seq::<FileInfoView>::empty());
        assert(s.skip(1) =~= Seq::<FileInfoView>::empty());
        assert(enc_files(s) =~= enc_file_info(s[0]) + enc_files(s.skip(1)));
    } else {
        lemma_enc_files_cons(s.drop_last());
        assert(s.drop_last()[0] == s[0]);
        assert(s.skip(1).drop_last() =~= s.drop_last().skip(1));
        assert(s.skip(1).last() == s.last());
        assert(enc_files(s) =~= enc_file_info(s[0]) + enc_files(s.skip(1)));
    }
}

proof fn lemma_enc_folders_cons(s: Seq<FolderInfoView>)
    requires
        s.len() > 0,
    ensures
        enc_folders(s) == enc_folder_info(s[0]) + enc_folders(s.skip(1)),
    decreases s.len(),
{
    if s.len() == 1 {
        assert(s.drop_last() =~= Seq::<FolderInfoView>::empty());
        assert(s.skip(1) =~= Seq::<FolderInfoView>::empty());
        assert(enc_folders(s) =~= enc_folder_info(s[0]) + enc_folders(s.skip(1)));
    } else {
        lemma_enc_folders_cons(s.drop_last());
        assert(s.drop_last()[0] == s[0]);
        assert(s.skip(1).drop_last() =~= s.drop_last().skip(1));
        assert(s.skip(1).last() == s.last());
        assert(enc_folders(s) =~= enc_folder_info(s[0]) + enc_folders(s.skip(1)));
    }
}

proof fn lemma_enc_notes_cons(s: Seq<PatchNoteView>)
    requires
        s.len() > 0,
    ensures
        enc_notes(s) == enc_note(s[0]) + enc_notes(s.skip(1)),
    decreases s.len(),
{
    if s.len() == 1 {
        assert(s.drop_last() =~= Seq::<PatchNoteView>::empty());
        assert(s.skip(1) =~= Seq::<PatchNoteView>::empty());
        assert(enc_notes(s) =~= enc_note(s[0]) + enc_notes(s.skip(1)));
    } else {
        lemma_enc_notes_cons(s.drop_last());
        assert(s.drop_last()[0] == s[0]);
        assert(s.skip(1).drop_last() =~= s.drop_last().skip(1));
        assert(s.skip(1).last() == s.last());
        assert(enc_notes(s) =~= enc_note(s[0]) + enc_notes(s.skip(1)));
    }
}

proof fn lemma_enc_logs_cons(s: Seq<LogView>)
    requires
        s.len() > 0,
    ensures
        enc_logs(s) == enc_log(s[0]) + enc_logs(s.skip(1)),
    decreases s.len(),
{
    if s.len() == 1 {
        assert(s.drop_last() =~= Seq::<LogView>::empty());
        assert(s.skip(1) =~= Seq::<LogView>::empty());
        assert(enc_logs(s) =~= enc_log(s[0]) + enc_logs(s.skip(1)));
    } else {
        lemma_enc_logs_cons(s.drop_last());
        assert(s.drop_last()[0] == s[0]);
        assert(s.skip(1).drop_last() =~= s.drop_last().skip(1));
        assert(s.skip(1).last() == s.last());
        assert(enc_logs(s) =~= enc_log(s[0]) + enc_logs(s.skip(1)));
    }
}

pub proof fn lemma_dec_files(b: Seq<u8>, pos: int, s: Seq<FileInfoView>)
    requires
        0 <= pos,
        files_encodable(s),
        pos + enc_files(s).len() <= b.len(),
        b.subrange(pos, pos + enc_files(s).len()) == enc_files(s),
    ensures
        dec_files(b, pos, s.len()) == Some((s, pos + enc_files(s).len())),
    decreases s.len(),
{
    if s.len() == 0 {
        assert(dec_files(b, pos, 0)->Some_0.0 =~= s);
    } else {
        lemma_enc_files_cons(s);
        let e0 = enc_file_info(s[0]);
        let rest = enc_files(s.skip(1));
        assert(enc_files(s).subrange(0, e0.len() as int) =~= e0);
        lemma_subrange_slice(b, pos, enc_files(s), 0, e0);
        lemma_dec_file_info(b, pos, s[0]);
        assert(enc_files(s).subrange(e0.len() as int, enc_files(s).len() as int) =~= rest);
        lemma_subrange_slice(b, pos, enc_files(s), e0.len() as int, rest);
        assert forall|i: int| 0 <= i < s.skip(1).len() implies str_encodable(
            #[trigger] s.skip(1)[i].name,
        ) by {
            assert(s.skip(1)[i] == s[i + 1]);
        }
        lemma_dec_files(b, pos + e0.len() as int, s.skip(1));
        assert(seq![s[0]] + s.skip(1) =~= s);
    }
}

pub proof fn lemma_dec_folders(b: Seq<u8>, pos: int, s: Seq<FolderInfoView>)
    requires
        0 <= pos,
        folders_encodable(s),
        pos + enc_folders(s).len() <= b.len(),
        b.subrange(pos, pos + enc_folders(s).len()) == enc_folders(s),
    ensures
        dec_folders(b, pos, s.len()) == Some((s, pos + enc_folders(s).len())),
    decreases s.len(),
{
    if s.len() == 0 {
        assert(dec_folders(b, pos, 0)->Some_0.0 =~= s);
    } else {
        lemma_enc_folders_cons(s);
        let e0 = enc_folder_info(s[0]);
        let rest = enc_folders(s.skip(1));
        assert(enc_folders(s).subrange(0, e0.len() as int) =~= e0);
        lemma_subrange_slice(b, pos, enc_folders(s), 0, e0);
        lemma_dec_folder_info(b, pos, s[0]);
        assert(enc_folders(s).subrange(e0.len() as int, enc_folders(s).len() as int) =~= rest);
        lemma_subrange_slice(b, pos, enc_folders(s), e0.len() as int, rest);
        assert forall|i: int| 0 <= i < s.skip(1).len() implies str_encodable(
            #[trigger] s.skip(1)[i].name,
        ) by {
            assert(s.skip(1)[i] == s[i + 1]);
        }
        lemma_dec_folders(b, pos + e0.len() as int, s.skip(1));
        assert(seq![s[0]] + s.skip(1) =~= s);
    }
}

pub proof fn lemma_dec_notes(b: Seq<u8>, pos: int, s: Seq<PatchNoteView>)
    requires
        0 <= pos,
        notes_encodable(s),
        pos + enc_notes(s).len() <= b.len(),
        b.subrange(pos, pos + enc_notes(s).len()) == enc_notes(s),
    ensures
        dec_notes(b, pos, s.len()) == Some((s, pos + enc_notes(s).len())),
    decreases s.len(),
{
    if s.len() == 0 {
        assert(dec_notes(b, pos, 0)->Some_0.0 =~= s);
    } else {
        lemma_enc_notes_cons(s);
        let e0 = enc_note(s[0]);
        let rest = enc_notes(s.skip(1));
        assert(enc_notes(s).subrange(0, e0.len() as int) =~= e0);
        lemma_subrange_slice(b, pos, enc_notes(s), 0, e0);
        lemma_dec_note(b, pos, s[0]);
        assert(enc_notes(s).subrange(e0.len() as int, enc_notes(s).len() as int) =~= rest);
        lemma_subrange_slice(b, pos, enc_notes(s), e0.len() as int, rest);
        assert forall|i: int| 0 <= i < s.skip(1).len() implies str_encodable(
            #[trigger] s.skip(1)[i].data,
        ) by {
            assert(s.skip(1)[i] == s[i + 1]);
        }
        lemma_dec_notes(b, pos + e0.len() as int, s.skip(1));
        assert(seq![s[0]] + s.skip(1) =~= s);
    }
}

pub proof fn lemma_dec_logs(b: Seq<u8>, pos: int, s: Seq<LogView>)
    requires
        0 <= pos,
        logs_encodable(s),
        pos + enc_logs(s).len() <= b.len(),
        b.subrange(pos, pos + enc_logs(s).len()) == enc_logs(s),
    ensures
        dec_logs(b, pos, s.len()) == Some((s, pos + enc_logs(s).len())),
    decreases s.len(),
{
    if s.len() == 0 {
        assert(dec_logs(b, pos, 0)->Some_0.0 =~= s);
    } else {
        lemma_enc_logs_cons(s);
        let e0 = enc_log(s[0]);
        let rest = enc_logs(s.skip(1));
        assert(enc_logs(s).subrange(0, e0.len() as int) =~= e0);
        lemma_subrange_slice(b, pos, enc_logs(s), 0, e0);
        lemma_dec_log(b, pos, s[0]);
        assert(enc_logs(s).subrange(e0.len() as int, enc_logs(s).len() as int) =~= rest);
        lemma_subrange_slice(b, pos, enc_logs(s), e0.len() as int, rest);
        assert forall|i: int| 0 <= i < s.skip(1).len() implies str_encodable(
            #[trigger] s.skip(1)[i].producer,
        ) && str_encodable(s.skip(1)[i].log) by {
            assert(s.skip(1)[i] == s[i + 1]);
        }
        lemma_dec_logs(b, pos + e0.len() as int, s.skip(1));
        assert(seq![s[0]] + s.skip(1) =~= s);
    }
}

// ---------------------------------------------------------------------
// The server family: messages.
// ---------------------------------------------------------------------

/// Whether a server message fits the wire format's length fields.
pub open spec fn server_encodable(p: ServerPacketView) -> bool {
    match p {
        ServerPacketView::FileList { dir, files, folders } => str_encodable(dir)
            && files_encodable(files) && folders_encodable(folders) && files.len() <= u32::MAX
            && folders.len() <= u32::MAX,
        ServerPacketView::Logs(logs) => logs_encodable(logs) && logs.len() <= u32::MAX,
        ServerPacketView::FileUploaded { id } => true,
        ServerPacketView::FileProceeded { id } => true,
        ServerPacketView::PatchNotes { take, skip, total, patch_notes } => notes_encodable(
            patch_notes,
        ) && patch_notes.len() <= u32::MAX,
        ServerPacketView::OpenPatchNote(p) => str_encodable(p.data),
    }
}

/// The generic encoding of a server message: a variant byte and the
/// fields.  (The transport adds its own raw-or-packet marker in front
/// of whole frames; that marker is not part of this encoding.)
pub open spec fn spec_server_encode(p: ServerPacketView) -> Seq<u8> {
    match p {
        ServerPacketView::FileList { dir, files, folders } => seq![0u8] + enc_str(dir) + enc_u32(
            files.len() as u32,
        ) + enc_files(files) + enc_u32(folders.len() as u32) + enc_folders(folders),
        ServerPacketView::Logs(logs) => seq![1u8] + enc_u32(logs.len() as u32) + enc_logs(logs),
        ServerPacketView::FileUploaded { id } => seq![2u8] + enc_u128(id),
        ServerPacketView::FileProceeded { id } => seq![3u8] + enc_u128(id),
        ServerPacketView::PatchNotes { take, skip, total, patch_notes } => seq![4u8] + enc_u32(
            take,
        ) + enc_u32(skip) + enc_u32(total) + enc_u32(patch_notes.len() as u32) + enc_notes(
            patch_notes,
        ),
        ServerPacketView::OpenPatchNote(note) => seq![5u8] + enc_note(note),
    }
}

/// The decoding of a server frame; strict like the client side's.
pub open spec fn spec_server_decode(b: Seq<u8>) -> Option<ServerPacketView> {
    if b.len() < 1 {
        None
    } else {
        let t = b[0];
        if t == 0 {
            match dec_str(b, 1) {
                Some((dir, p1)) => match dec_u32(b, p1) {
                    Some((nf, p2)) => match dec_files(b, p2, nf as nat) {
                        Some((files, p3)) => match dec_u32(b, p3) {
                            Some((nd, p4)) => match dec_folders(b, p4, nd as nat) {
                                Some((folders, p5)) => if p5 == b.len() {
                                    Some(ServerPacketView::FileList { dir, files, folders })
                                } else {
                                    None
                                },
                                None => None,
                            },
                            None => None,
                        },
                        None => None,
                    },
                    None => None,
                },
                None => None,
            }
        } else if t == 1 {
            match dec_u32(b, 1) {
                Some((n, p1)) => match dec_logs(b, p1, n as nat) {
                    Some((logs, p2)) => if p2 == b.len() {
                        Some(ServerPacketView::Logs(logs))
                    } else {
                        None
                    },
                    None => None,
                },
                None => None,
            }
        } else if t == 2 || t == 3 {
            match dec_u128(b, 1) {
                Some((id, p1)) => if p1 == b.len() {
                    if t == 2 {
                        Some(ServerPacketView::FileUploaded { id })
                    } else {
                        Some(ServerPacketView::FileProceeded { id })
                    }
                } else {
                    None
                },
                None => None,
            }
        } else if t == 4 {
            match dec_u32(b, 1) {
                Some((take, p1)) => match dec_u32(b, p1) {
                    Some((skip, p2)) => match dec_u32(b, p2) {
                        Some((total, p3)) => match dec_u32(b, p3) {
                            Some((n, p4)) => match dec_notes(b, p4, n as nat) {
                                Some((patch_notes, p5)) => if p5 == b.len() {
                                    Some(
                                        ServerPacketView::PatchNotes {
                                            take,
                                            skip,
                                            total,
                                            patch_notes,
                                        },
                                    )
                                } else {
                                    None
                                },
                                None => None,
                            },
                            None => None,
                        },
                        None => None,
                    },
                    None => None,
                },
                None => None,
            }
        } else if t == 5 {
            match dec_note(b, 1) {
                Some((note, p1)) => if p1 == b.len() {
                    Some(ServerPacketView::OpenPatchNote(note))
                } else {
                    None
                },
                None => None,
            }
        } else {
            None
        }
    }
}

/// Decoding a server message's encoding restores it exactly.
#[verifier::rlimit(100)]
pub proof fn lemma_server_round_trip(p: ServerPacketView)
    requires
        server_encodable(p),
    ensures
        spec_server_decode(spec_server_encode(p)) == Some(p),
{
    let b = spec_server_encode(p);
    match p {
        ServerPacketView::FileList { dir, files, folders } => {
            let e1 = enc_str(dir);
            let e2 = enc_u32(files.len() as u32);
            let e3 = enc_files(files);
            let e4 = enc_u32(folders.len() as u32);
            let e5 = enc_folders(folders);
            proof_enc_u32_len(files.len() as u32);
            proof_enc_u32_len(folders.len() as u32);
            let p1 = 1 + e1.len() as int;
            let p2 = p1 + 4;
            let p3 = p2 + e3.len() as int;
            let p4 = p3 + 4;
            let p5 = p4 + e5.len() as int;
            assert(b.subrange(1, p1) =~= e1);
            lemma_dec_str(b, 1, dir);
            assert(b.subrange(p1, p2) =~= e2);
            lemma_dec_u32(b, p1, files.len() as u32);
            assert(b.subrange(p2, p3) =~= e3);
            lemma_dec_files(b, p2, files);
            assert(b.subrange(p3, p4) =~= e4);
            lemma_dec_u32(b, p3, folders.len() as u32);
            assert(b.subrange(p4, p5) =~= e5);
            lemma_dec_folders(b, p4, folders);
        },
        ServerPacketView::Logs(logs) => {
            let e1 = enc_u32(logs.len() as u32);
            let e2 = enc_logs(logs);
            proof_enc_u32_len(logs.len() as u32);
            assert(b.subrange(1, 5) =~= e1);
            lemma_dec_u32(b, 1, logs.len() as u32);
            assert(b.subrange(5, 5 + e2.len() as int) =~= e2);
            lemma_dec_logs(b, 5, logs);
        },
        ServerPacketView::FileUploaded { id } => {
            proof_enc_u128_len(id);
            assert(b.subrange(1, 17) =~= enc_u128(id));
            lemma_dec_u128(b, 1, id);
        },
        ServerPacketView::FileProceeded { id } => {
            proof_enc_u128_len(id);
            assert(b.subrange(1, 17) =~= enc_u128(id));
            lemma_dec_u128(b, 1, id);
        },
        ServerPacketView::PatchNotes { take, skip, total, patch_notes } => {
            let e5 = enc_notes(patch_notes);
            proof_enc_u32_len(take);
            proof_enc_u32_len(skip);
            proof_enc_u32_len(total);
            proof_enc_u32_len(patch_notes.len() as u32);
            assert(b.subrange(1, 5) =~= enc_u32(take));
            lemma_dec_u32(b, 1, take);
            assert(b.subrange(5, 9) =~= enc_u32(skip));
            lemma_dec_u32(b, 5, skip);
            assert(b.subrange(9, 13) =~= enc_u32(total));
            lemma_dec_u32(b, 9, total);
            assert(b.subrange(13, 17) =~= enc_u32(patch_notes.len() as u32));
            lemma_dec_u32(b, 13, patch_notes.len() as u32);
            assert(b.subrange(17, 17 + e5.len() as int) =~= e5);
            lemma_dec_notes(b, 17, patch_notes);
        },
        ServerPacketView::OpenPatchNote(note) => {
            let e1 = enc_note(note);
            assert(b.subrange(1, 1 + e1.len() as int) =~= e1);
            lemma_dec_note(b, 1, note);
        },
    }
}

// ---------------------------------------------------------------------
// Executable encoding.
// ---------------------------------------------------------------------

/// Why a message could not be encoded: a string or a list did not fit
/// the 32-bit length field.
#[derive(Debug)]
pub enum EncodeError {
    StringTooLong,
    ListTooLong,
}

/// Why a frame could not be decoded: malformed or truncated bytes, an
/// unknown discriminant, or trailing garbage.
#[derive(Debug)]
pub enum DecodeError {
    Malformed,
}

/// Relies on `core::str::from_utf8` and `str::to_owned`: decoding
/// succeeds exactly on valid UTF-8 and restores the characters the
/// bytes encode.
#[verifier::external_body]
fn bytes_to_string(bytes: &[u8]) -> (r: Option<String>)
    ensures
        match r {
            Some(s) => valid_utf8(bytes@) && s@ == decode_utf8(bytes@),
            None => !valid_utf8(bytes@),
        },
{
    match core::str::from_utf8(bytes) {
        Ok(s) => Some(s.to_owned()),
        Err(_) => None,
    }
}

fn push_u32(out: &mut Vec<u8>, x: u32)
    ensures
        final(out)@ == old(out)@ + enc_u32(x),
{
    let mut b = vstd::bytes::u32_to_le_bytes(x);
    out.append(&mut b);
}

fn push_u64(out: &mut Vec<u8>, x: u64)
    ensures
        final(out)@ == old(out)@ + enc_u64(x),
{
    let mut b = vstd::bytes::u64_to_le_bytes(x);
    out.append(&mut b);
}

fn push_u128(out: &mut Vec<u8>, x: u128)
    ensures
        final(out)@ == old(out)@ + enc_u128(x),
{
    let mut b = vstd::bytes::u128_to_le_bytes(x);
    out.append(&mut b);
}

fn push_i64(out: &mut Vec<u8>, x: i64)
    ensures
        final(out)@ == old(out)@ + enc_i64(x),
{
    push_u64(out, #[verifier::truncate] (x as u64));
}

fn push_bool(out: &mut Vec<u8>, x: bool)
    ensures
        final(out)@ == old(out)@ + enc_bool(x),
{
    out.push(if x { 1 } else { 0 });
    proof {
        assert(out@ =~= old(out)@ + enc_bool(x));
    }
}

fn push_level(out: &mut Vec<u8>, l: LogLevel)
    ensures
        final(out)@ == old(out)@ + enc_level(l),
{
    let b: u8 = match l {
        LogLevel::Debug => 0,
        LogLevel::Info => 1,
        LogLevel::Warning => 2,
        LogLevel::Error => 3,
    };
    out.push(b);
    proof {
        assert(out@ =~= old(out)@ + enc_level(l));
    }
}

fn push_str(out: &mut Vec<u8>, s: &str) -> (ok: bool)
    ensures
        ok ==> final(out)@ == old(out)@ + enc_str(s@) && str_encodable(s@),
        !ok ==> final(out)@ == old(out)@ && !str_encodable(s@),
{
    let bs = s.as_bytes();
    if bs.len() > u32::MAX as usize {
        return false;
    }
    push_u32(out, bs.len() as u32);
    let mut v = vstd::slice::slice_to_vec(bs);
    out.append(&mut v);
    proof {
        assert(out@ =~= old(out)@ + enc_str(s@));
    }
    true
}

fn push_file_info(out: &mut Vec<u8>, f: &FileInfo) -> (ok: bool)
    ensures
        ok ==> final(out)@ == old(out)@ + enc_file_info(f@) && str_encodable(f@.name),
        !ok ==> final(out)@ == old(out)@ && !str_encodable(f@.name),
{
    if !push_str(out, f.name.as_str()) {
        return false;
    }
    push_u64(out, f.size);
    push_i64(out, f.created);
    push_i64(out, f.modified_at);
    push_u32(out, f.updated_by);
    push_bool(out, f.skip_hash_check);
    push_bool(out, f.deleted);
    proof {
        assert(out@ =~= old(out)@ + enc_file_info(f@));
    }
    true
}

fn push_folder_info(out: &mut Vec<u8>, f: &FolderInfo) -> (ok: bool)
    ensures
        ok ==> final(out)@ == old(out)@ + enc_folder_info(f@) && str_encodable(f@.name),
        !ok ==> final(out)@ == old(out)@ && !str_encodable(f@.name),
{
    if !push_str(out, f.name.as_str()) {
        return false;
    }
    push_u64(out, f.size);
    push_i64(out, f.created);
    push_i64(out, f.modified_at);
    push_u32(out, f.updated_by);
    push_bool(out, f.deleted);
    proof {
        assert(out@ =~= old(out)@ + enc_folder_info(f@));
    }
    true
}

fn push_note(out: &mut Vec<u8>, p: &PatchNote) -> (ok: bool)
    ensures
        ok ==> final(out)@ == old(out)@ + enc_note(p@) && str_encodable(p@.data),
        !ok ==> !str_encodable(p@.data),
{
    push_u32(out, p.id);
    if !push_str(out, p.data.as_str()) {
        return false;
    }
    proof {
        assert(out@ =~= old(out)@ + enc_note(p@));
    }
    true
}

fn push_log(out: &mut Vec<u8>, l: &Log) -> (ok: bool)
    ensures
        ok ==> final(out)@ == old(out)@ + enc_log(l@) && str_encodable(l@.producer)
            && str_encodable(l@.log),
        !ok ==> !(str_encodable(l@.producer) && str_encodable(l@.log)),
{
    push_level(out, l.level);
    if !push_str(out, l.producer.as_str()) {
        return false;
    }
    if !push_str(out, l.log.as_str()) {
        return false;
    }
    push_i64(out, l.time);
    proof {
        assert(out@ =~= old(out)@ + enc_log(l@));
    }
    true
}

fn push_files(out: &mut Vec<u8>, v: &Vec<FileInfo>) -> (ok: bool)
    ensures
        ok ==> final(out)@ == old(out)@ + enc_files(v@.map_values(|f: FileInfo| f@))
            && files_encodable(v@.map_values(|f: FileInfo| f@)),
        !ok ==> !files_encodable(v@.map_values(|f: FileInfo| f@)),
{
    let ghost vs = v@.map_values(|f: FileInfo| f@);
    let mut i: usize = 0;
    while i < v.len()
        invariant
            i <= v@.len(),
            vs == v@.map_values(|f: FileInfo| f@),
            out@ == old(out)@ + enc_files(vs.take(i as int)),
            forall|k: int| 0 <= k < i as int ==> str_encodable(#[trigger] vs[k].name),
        decreases v@.len() - i,
    {
        if !push_file_info(out, &v[i]) {
            proof {
                assert(vs[i as int] == v@[i as int]@);
                assert(!str_encodable(vs[i as int].name));
            }
            return false;
        }
        proof {
            assert(vs[i as int] == v@[i as int]@);
            assert(vs.take(i as int + 1).drop_last() =~= vs.take(i as int));
            assert(vs.take(i as int + 1).last() == vs[i as int]);
            assert(out@ =~= old(out)@ + enc_files(vs.take(i as int + 1)));
        }
        i += 1;
    }
    proof {
        assert(vs.take(v@.len() as int) =~= vs);
    }
    true
}

fn push_folders(out: &mut Vec<u8>, v: &Vec<FolderInfo>) -> (ok: bool)
    ensures
        ok ==> final(out)@ == old(out)@ + enc_folders(v@.map_values(|f: FolderInfo| f@))
            && folders_encodable(v@.map_values(|f: FolderInfo| f@)),
        !ok ==> !folders_encodable(v@.map_values(|f: FolderInfo| f@)),
{
    let ghost vs = v@.map_values(|f: FolderInfo| f@);
    let mut i: usize = 0;
    while i < v.len()
        invariant
            i <= v@.len(),
            vs == v@.map_values(|f: FolderInfo| f@),
            out@ == old(out)@ + enc_folders(vs.take(i as int)),
            forall|k: int| 0 <= k < i as int ==> str_encodable(#[trigger] vs[k].name),
        decreases v@.len() - i,
    {
        if !push_folder_info(out, &v[i]) {
            proof {
                assert(vs[i as int] == v@[i as int]@);
                assert(!str_encodable(vs[i as int].name));
            }
            return false;
        }
        proof {
            assert(vs[i as int] == v@[i as int]@);
            assert(vs.take(i as int + 1).drop_last() =~= vs.take(i as int));
            assert(vs.take(i as int + 1).last() == vs[i as int]);
            assert(out@ =~= old(out)@ + enc_folders(vs.take(i as int + 1)));
        }
        i += 1;
    }
    proof {
        assert(vs.take(v@.len() as int) =~= vs);
    }
    true
}

fn push_notes(out: &mut Vec<u8>, v: &Vec<PatchNote>) -> (ok: bool)
    ensures
        ok ==> final(out)@ == old(out)@ + enc_notes(v@.map_values(|f: PatchNote| f@))
            && notes_encodable(v@.map_values(|f: PatchNote| f@)),
        !ok ==> !notes_encodable(v@.map_values(|f: PatchNote| f@)),
{
    let ghost vs = v@.map_values(|f: PatchNote| f@);
    let mut i: usize = 0;
    while i < v.len()
        invariant
            i <= v@.len(),
            vs == v@.map_values(|f: PatchNote| f@),
            out@ == old(out)@ + enc_notes(vs.take(i as int)),
            forall|k: int| 0 <= k < i as int ==> str_encodable(#[trigger] vs[k].data),
        decreases v@.len() - i,
    {
        if !push_note(out, &v[i]) {
            proof {
                assert(vs[i as int] == v@[i as int]@);
                assert(!str_encodable(vs[i as int].data));
            }
            return false;
        }
        proof {
            assert(vs[i as int] == v@[i as int]@);
            assert(vs.take(i as int + 1).drop_last() =~= vs.take(i as int));
            assert(vs.take(i as int + 1).last() == vs[i as int]);
            assert(out@ =~= old(out)@ + enc_notes(vs.take(i as int + 1)));
        }
        i += 1;
    }
    proof {
        assert(vs.take(v@.len() as int) =~= vs);
    }
    true
}

fn push_logs(out: &mut Vec<u8>, v: &Vec<Log>) -> (ok: bool)
    ensures
        ok ==> final(out)@ == old(out)@ + enc_logs(v@.map_values(|f: Log| f@)) && logs_encodable(
            v@.map_values(|f: Log| f@),
        ),
        !ok ==> !logs_encodable(v@.map_values(|f: Log| f@)),
{
    let ghost vs = v@.map_values(|f: Log| f@);
    let mut i: usize = 0;
    while i < v.len()
        invariant
            i <= v@.len(),
            vs == v@.map_values(|f: Log| f@),
            out@ == old(out)@ + enc_logs(vs.take(i as int)),
            logs_encodable(vs.take(i as int)),
        decreases v@.len() - i,
    {
        if !push_log(out, &v[i]) {
            proof {
                assert(vs[i as int] == v@[i as int]@);
                assert(!(str_encodable(vs[i as int].producer) && str_encodable(
                    vs[i as int].log,
                )));
            }
            return false;
        }
        proof {
            assert(vs[i as int] == v@[i as int]@);
            assert(str_encodable(vs[i as int].producer));
            assert(str_encodable(vs[i as int].log));
            assert(vs.take(i as int + 1).drop_last() =~= vs.take(i as int));
            assert(vs.take(i as int + 1).last() == vs[i as int]);
            assert(out@ =~= old(out)@ + enc_logs(vs.take(i as int + 1)));
            assert forall|k: int|
                0 <= k < vs.take(i as int + 1).len() implies str_encodable(
                #[trigger] vs.take(i as int + 1)[k].producer,
            ) && str_encodable(vs.take(i as int + 1)[k].log) by {
                if k < i as int {
                    assert(vs.take(i as int + 1)[k] == vs.take(i as int)[k]);
                    assert(str_encodable(vs.take(i as int)[k].producer) && str_encodable(
                        vs.take(i as int)[k].log,
                    ));
                } else {
                    assert(vs.take(i as int + 1)[k] == vs[i as int]);
                }
            }
            assert(logs_encodable(vs.take(i as int + 1)));
        }
        i += 1;
    }
    proof {
        assert(vs.take(v@.len() as int) =~= vs);
    }
    true
}

// ---------------------------------------------------------------------
// Executable decoding: cursor-based readers that mirror the spec
// parsers exactly.
// ---------------------------------------------------------------------

fn read_u32(b: &[u8], pos: &mut usize) -> (r: Option<u32>)
    requires
        *old(pos) <= b@.len(),
    ensures
        match r {
            Some(x) => dec_u32(b@, *old(pos) as int) == Some((x, *final(pos) as int)) && *old(pos)
                <= *final(pos) <= b@.len(),
            None => dec_u32(b@, *old(pos) as int) is None && *final(pos) == *old(pos),
        },
{
    if b.len() - *pos >= 4 {
        let s = vstd::slice::slice_subrange(b, *pos, *pos + 4);
        let x = vstd::bytes::u32_from_le_bytes(s);
        *pos = *pos + 4;
        Some(x)
    } else {
        None
    }
}

fn read_u64(b: &[u8], pos: &mut usize) -> (r: Option<u64>)
    requires
        *old(pos) <= b@.len(),
    ensures
        match r {
            Some(x) => dec_u64(b@, *old(pos) as int) == Some((x, *final(pos) as int)) && *old(pos)
                <= *final(pos) <= b@.len(),
            None => dec_u64(b@, *old(pos) as int) is None && *final(pos) == *old(pos),
        },
{
    if b.len() - *pos >= 8 {
        let s = vstd::slice::slice_subrange(b, *pos, *pos + 8);
        let x = vstd::bytes::u64_from_le_bytes(s);
        *pos = *pos + 8;
        Some(x)
    } else {
        None
    }
}

fn read_u128(b: &[u8], pos: &mut usize) -> (r: Option<u128>)
    requires
        *old(pos) <= b@.len(),
    ensures
        match r {
            Some(x) => dec_u128(b@, *old(pos) as int) == Some((x, *final(pos) as int)) && *old(pos)
                <= *final(pos) <= b@.len(),
            None => dec_u128(b@, *old(pos) as int) is None && *final(pos) == *old(pos),
        },
{
    if b.len() - *pos >= 16 {
        let s = vstd::slice::slice_subrange(b, *pos, *pos + 16);
        let x = vstd::bytes::u128_from_le_bytes(s);
        *pos = *pos + 16;
        Some(x)
    } else {
        None
    }
}

fn read_i64(b: &[u8], pos: &mut usize) -> (r: Option<i64>)
    requires
        *old(pos) <= b@.len(),
    ensures
        match r {
            Some(x) => dec_i64(b@, *old(pos) as int) == Some((x, *final(pos) as int)) && *old(pos)
                <= *final(pos) <= b@.len(),
            None => dec_i64(b@, *old(pos) as int) is None && *final(pos) == *old(pos),
        },
{
    match read_u64(b, pos) {
        Some(x) => Some(#[verifier::truncate] (x as i64)),
        None => None,
    }
}

fn read_bool(b: &[u8], pos: &mut usize) -> (r: Option<bool>)
    requires
        *old(pos) <= b@.len(),
    ensures
        match r {
            Some(x) => dec_bool(b@, *old(pos) as int) == Some((x, *final(pos) as int)) && *old(pos)
                <= *final(pos) <= b@.len(),
            None => dec_bool(b@, *old(pos) as int) is None && *final(pos) == *old(pos),
        },
{
    if b.len() - *pos >= 1 {
        let x = *vstd::slice::slice_index_get(b, *pos);
        if x == 0 {
            *pos = *pos + 1;
            Some(false)
        } else if x == 1 {
            *pos = *pos + 1;
            Some(true)
        } else {
            None
        }
    } else {
        None
    }
}

fn read_level(b: &[u8], pos: &mut usize) -> (r: Option<LogLevel>)
    requires
        *old(pos) <= b@.len(),
    ensures
        match r {
            Some(x) => dec_level(b@, *old(pos) as int) == Some((x, *final(pos) as int)) && *old(
                pos,
            ) <= *final(pos) <= b@.len(),
            None => dec_level(b@, *old(pos) as int) is None && *final(pos) == *old(pos),
        },
{
    if b.len() - *pos >= 1 {
        let x = *vstd::slice::slice_index_get(b, *pos);
        if x == 0 {
            *pos = *pos + 1;
            Some(LogLevel::Debug)
        } else if x == 1 {
            *pos = *pos + 1;
            Some(LogLevel::Info)
        } else if x == 2 {
            *pos = *pos + 1;
            Some(LogLevel::Warning)
        } else if x == 3 {
            *pos = *pos + 1;
            Some(LogLevel::Error)
        } else {
            None
        }
    } else {
        None
    }
}

fn read_str(b: &[u8], pos: &mut usize) -> (r: Option<String>)
    requires
        *old(pos) <= b@.len(),
    ensures
        match r {
            Some(s) => dec_str(b@, *old(pos) as int) == Some((s@, *final(pos) as int)) && *old(pos)
                <= *final(pos) <= b@.len(),
            None => dec_str(b@, *old(pos) as int) is None && *final(pos) <= b@.len(),
        },
{
    let n = match read_u32(b, pos) {
        Some(n) => n,
        None => {
            return None;
        },
    };
    if (n as usize) <= b.len() - *pos {
        let s = vstd::slice::slice_subrange(b, *pos, *pos + n as usize);
        match bytes_to_string(s) {
            Some(st) => {
                *pos = *pos + n as usize;
                Some(st)
            },
            None => None,
        }
    } else {
        None
    }
}

fn read_file_info(b: &[u8], pos: &mut usize) -> (r: Option<FileInfo>)
    requires
        *old(pos) <= b@.len(),
    ensures
        match r {
            Some(f) => dec_file_info(b@, *old(pos) as int) == Some((f@, *final(pos) as int))
                && *old(pos) <= *final(pos) <= b@.len(),
            None => dec_file_info(b@, *old(pos) as int) is None && *final(pos) <= b@.len(),
        },
{
    let name = match read_str(b, pos) {
        Some(v) => v,
        None => {
            return None;
        },
    };
    let size = match read_u64(b, pos) {
        Some(v) => v,
        None => {
            return None;
        },
    };
    let created = match read_i64(b, pos) {
        Some(v) => v,
        None => {
            return None;
        },
    };
    let modified_at = match read_i64(b, pos) {
        Some(v) => v,
        None => {
            return None;
        },
    };
    let updated_by = match read_u32(b, pos) {
        Some(v) => v,
        None => {
            return None;
        },
    };
    let skip_hash_check = match read_bool(b, pos) {
        Some(v) => v,
        None => {
            return None;
        },
    };
    let deleted = match read_bool(b, pos) {
        Some(v) => v,
        None => {
            return None;
        },
    };
    let f = FileInfo { name, size, created, modified_at, updated_by, skip_hash_check, deleted };
    proof {
        assert(dec_file_info(b@, *old(pos) as int)->Some_0.0 =~= f@);
    }
    Some(f)
}

fn read_folder_info(b: &[u8], pos: &mut usize) -> (r: Option<FolderInfo>)
    requires
        *old(pos) <= b@.len(),
    ensures
        match r {
            Some(f) => dec_folder_info(b@, *old(pos) as int) == Some((f@, *final(pos) as int))
                && *old(pos) <= *final(pos) <= b@.len(),
            None => dec_folder_info(b@, *old(pos) as int) is None && *final(pos) <= b@.len(),
        },
{
    let name = match read_str(b, pos) {
        Some(v) => v,
        None => {
            return None;
        },
    };
    let size = match read_u64(b, pos) {
        Some(v) => v,
        None => {
            return None;
        },
    };
    let created = match read_i64(b, pos) {
        Some(v) => v,
        None => {
            return None;
        },
    };
    let modified_at = match read_i64(b, pos) {
        Some(v) => v,
        None => {
            return None;
        },
    };
    let updated_by = match read_u32(b, pos) {
        Some(v) => v,
        None => {
            return None;
        },
    };
    let deleted = match read_bool(b, pos) {
        Some(v) => v,
        None => {
            return None;
        },
    };
    let f = FolderInfo { name, size, created, modified_at, updated_by, deleted };
    proof {
        assert(dec_folder_info(b@, *old(pos) as int)->Some_0.0 =~= f@);
    }
    Some(f)
}

fn read_note(b: &[u8], pos: &mut usize) -> (r: Option<PatchNote>)
    requires
        *old(pos) <= b@.len(),
    ensures
        match r {
            Some(f) => dec_note(b@, *old(pos) as int) == Some((f@, *final(pos) as int)) && *old(
                pos,
            ) <= *final(pos) <= b@.len(),
            None => dec_note(b@, *old(pos) as int) is None && *final(pos) <= b@.len(),
        },
{
    let id = match read_u32(b, pos) {
        Some(v) => v,
        None => {
            return None;
        },
    };
    let data = match read_str(b, pos) {
        Some(v) => v,
        None => {
            return None;
        },
    };
    let f = PatchNote { id, data };
    proof {
        assert(dec_note(b@, *old(pos) as int)->Some_0.0 =~= f@);
    }
    Some(f)
}

fn read_log(b: &[u8], pos: &mut usize) -> (r: Option<Log>)
    requires
        *old(pos) <= b@.len(),
    ensures
        match r {
            Some(f) => dec_log(b@, *old(pos) as int) == Some((f@, *final(pos) as int)) && *old(pos)
                <= *final(pos) <= b@.len(),
            None => dec_log(b@, *old(pos) as int) is None && *final(pos) <= b@.len(),
        },
{
    let level = match read_level(b, pos) {
        Some(v) => v,
        None => {
            return None;
        },
    };
    let producer = match read_str(b, pos) {
        Some(v) => v,
        None => {
            return None;
        },
    };
    let log = match read_str(b, pos) {
        Some(v) => v,
        None => {
            return None;
        },
    };
    let time = match read_i64(b, pos) {
        Some(v) => v,
        None => {
            return None;
        },
    };
    let f = Log { level, producer, log, time };
    proof {
        assert(dec_log(b@, *old(pos) as int)->Some_0.0 =~= f@);
    }
    Some(f)
}

fn read_files(b: &[u8], pos: &mut usize, n: u32) -> (r: Option<Vec<FileInfo>>)
    requires
        *old(pos) <= b@.len(),
    ensures
        match r {
            Some(v) => dec_files(b@, *old(pos) as int, n as nat) == Some(
                (v@.map_values(|f: FileInfo| f@), *final(pos) as int),
            ) && *final(pos) <= b@.len(),
            None => dec_files(b@, *old(pos) as int, n as nat) is None && *final(pos) <= b@.len(),
        },
{
    let ghost p0 = *pos as int;
    let mut v: Vec<FileInfo> = Vec::new();
    let mut i: u32 = 0;
    while i < n
        invariant
            i <= n,
            p0 == *old(pos) as int,
            *pos <= b@.len(),
            (dec_files(b@, p0, n as nat) == (match dec_files(b@, *pos as int, (n - i) as nat) {
                Some((fs, p)) => Some((v@.map_values(|f: FileInfo| f@) + fs, p)),
                None => None::<(Seq<FileInfoView>, int)>,
            })),
        decreases n - i,
    {
        match read_file_info(b, pos) {
            Some(f) => {
                proof {
                    assert(v@.push(f).map_values(|x: FileInfo| x@) =~= v@.map_values(
                        |x: FileInfo| x@,
                    ).push(f@));
                    match dec_files(b@, *pos as int, (n - i - 1) as nat) {
                        Some((fs2, p2)) => {
                            assert(v@.map_values(|x: FileInfo| x@) + (seq![f@] + fs2) =~= v@.push(
                                f,
                            ).map_values(|x: FileInfo| x@) + fs2);
                        },
                        None => {},
                    }
                }
                v.push(f);
                i += 1;
            },
            None => {
                return None;
            },
        }
    }
    proof {
        assert(v@.map_values(|f: FileInfo| f@) + Seq::<FileInfoView>::empty() =~= v@.map_values(
            |f: FileInfo| f@,
        ));
    }
    Some(v)
}

fn read_folders(b: &[u8], pos: &mut usize, n: u32) -> (r: Option<Vec<FolderInfo>>)
    requires
        *old(pos) <= b@.len(),
    ensures
        match r {
            Some(v) => dec_folders(b@, *old(pos) as int, n as nat) == Some(
                (v@.map_values(|f: FolderInfo| f@), *final(pos) as int),
            ) && *final(pos) <= b@.len(),
            None => dec_folders(b@, *old(pos) as int, n as nat) is None && *final(pos) <= b@.len(),
        },
{
    let ghost p0 = *pos as int;
    let mut v: Vec<FolderInfo> = Vec::new();
    let mut i: u32 = 0;
    while i < n
        invariant
            i <= n,
            p0 == *old(pos) as int,
            *pos <= b@.len(),
            (dec_folders(b@, p0, n as nat) == (match dec_folders(b@, *pos as int, (n - i) as nat) {
                Some((fs, p)) => Some((v@.map_values(|f: FolderInfo| f@) + fs, p)),
                None => None::<(Seq<FolderInfoView>, int)>,
            })),
        decreases n - i,
    {
        match read_folder_info(b, pos) {
            Some(f) => {
                proof {
                    assert(v@.push(f).map_values(|x: FolderInfo| x@) =~= v@.map_values(
                        |x: FolderInfo| x@,
                    ).push(f@));
                    match dec_folders(b@, *pos as int, (n - i - 1) as nat) {
                        Some((fs2, p2)) => {
                            assert(v@.map_values(|x: FolderInfo| x@) + (seq![f@] + fs2) =~= v@.push(
                                f,
                            ).map_values(|x: FolderInfo| x@) + fs2);
                        },
                        None => {},
                    }
                }
                v.push(f);
                i += 1;
            },
            None => {
                return None;
            },
        }
    }
    proof {
        assert(v@.map_values(|f: FolderInfo| f@) + Seq::<FolderInfoView>::empty() =~= v@.map_values(
            |f: FolderInfo| f@,
        ));
    }
    Some(v)
}

fn read_notes(b: &[u8], pos: &mut usize, n: u32) -> (r: Option<Vec<PatchNote>>)
    requires
        *old(pos) <= b@.len(),
    ensures
        match r {
            Some(v) => dec_notes(b@, *old(pos) as int, n as nat) == Some(
                (v@.map_values(|f: PatchNote| f@), *final(pos) as int),
            ) && *final(pos) <= b@.len(),
            None => dec_notes(b@, *old(pos) as int, n as nat) is None && *final(pos) <= b@.len(),
        },
{
    let ghost p0 = *pos as int;
    let mut v: Vec<PatchNote> = Vec::new();
    let mut i: u32 = 0;
    while i < n
        invariant
            i <= n,
            p0 == *old(pos) as int,
            *pos <= b@.len(),
            (dec_notes(b@, p0, n as nat) == (match dec_notes(b@, *pos as int, (n - i) as nat) {
                Some((fs, p)) => Some((v@.map_values(|f: PatchNote| f@) + fs, p)),
                None => None::<(Seq<PatchNoteView>, int)>,
            })),
        decreases n - i,
    {
        match read_note(b, pos) {
            Some(f) => {
                proof {
                    assert(v@.push(f).map_values(|x: PatchNote| x@) =~= v@.map_values(
                        |x: PatchNote| x@,
                    ).push(f@));
                    match dec_notes(b@, *pos as int, (n - i - 1) as nat) {
                        Some((fs2, p2)) => {
                            assert(v@.map_values(|x: PatchNote| x@) + (seq![f@] + fs2) =~= v@.push(
                                f,
                            ).map_values(|x: PatchNote| x@) + fs2);
                        },
                        None => {},
                    }
                }
                v.push(f);
                i += 1;
            },
            None => {
                return None;
            },
        }
    }
    proof {
        assert(v@.map_values(|f: PatchNote| f@) + Seq::<PatchNoteView>::empty() =~= v@.map_values(
            |f: PatchNote| f@,
        ));
    }
    Some(v)
}

fn read_logs(b: &[u8], pos: &mut usize, n: u32) -> (r: Option<Vec<Log>>)
    requires
        *old(pos) <= b@.len(),
    ensures
        match r {
            Some(v) => dec_logs(b@, *old(pos) as int, n as nat) == Some(
                (v@.map_values(|f: Log| f@), *final(pos) as int),
            ) && *final(pos) <= b@.len(),
            None => dec_logs(b@, *old(pos) as int, n as nat) is None && *final(pos) <= b@.len(),
        },
{
    let ghost p0 = *pos as int;
    let mut v: Vec<Log> = Vec::new();
    let mut i: u32 = 0;
    while i < n
        invariant
            i <= n,
            p0 == *old(pos) as int,
            *pos <= b@.len(),
            (dec_logs(b@, p0, n as nat) == (match dec_logs(b@, *pos as int, (n - i) as nat) {
                Some((fs, p)) => Some((v@.map_values(|f: Log| f@) + fs, p)),
                None => None::<(Seq<LogView>, int)>,
            })),
        decreases n - i,
    {
        match read_log(b, pos) {
            Some(f) => {
                proof {
                    assert(v@.push(f).map_values(|x: Log| x@) =~= v@.map_values(
                        |x: Log| x@,
                    ).push(f@));
                    match dec_logs(b@, *pos as int, (n - i - 1) as nat) {
                        Some((fs2, p2)) => {
                            assert(v@.map_values(|x: Log| x@) + (seq![f@] + fs2) =~= v@.push(
                                f,
                            ).map_values(|x: Log| x@) + fs2);
                        },
                        None => {},
                    }
                }
                v.push(f);
                i += 1;
            },
            None => {
                return None;
            },
        }
    }
    proof {
        assert(v@.map_values(|f: Log| f@) + Seq::<LogView>::empty() =~= v@.map_values(
            |f: Log| f@,
        ));
    }
    Some(v)
}

// ---------------------------------------------------------------------
// The public codec entry points.
// ---------------------------------------------------------------------

impl ClientPacket {
    /// Encode for the wire; fails exactly when a string exceeds the
    /// 32-bit length field.  The encoding decodes back to this very
    /// message (see [`lemma_client_round_trip`]).
    pub fn to_bin(&self) -> (r: Result<Vec<u8>, EncodeError>)
        ensures
            match r {
                Ok(v) => client_encodable(self@) && v@ == spec_client_encode(self@),
                Err(_) => !client_encodable(self@),
            },
    {
        let mut out: Vec<u8> = Vec::new();
        match self {
            ClientPacket::FileList { dir } => {
                out.push(0);
                out.push(0);
                if !push_str(&mut out, dir.as_str()) {
                    return Err(EncodeError::StringTooLong);
                }
                proof {
                    assert(out@ =~= spec_client_encode(self@));
                }
                Ok(out)
            },
            ClientPacket::RemoveFile { dir, name } => {
                out.push(0);
                out.push(1);
                if !push_str(&mut out, dir.as_str()) {
                    return Err(EncodeError::StringTooLong);
                }
                if !push_str(&mut out, name.as_str()) {
                    return Err(EncodeError::StringTooLong);
                }
                proof {
                    assert(out@ =~= spec_client_encode(self@));
                }
                Ok(out)
            },
            ClientPacket::RemoveFolder { dir, name } => {
                out.push(0);
                out.push(2);
                if !push_str(&mut out, dir.as_str()) {
                    return Err(EncodeError::StringTooLong);
                }
                if !push_str(&mut out, name.as_str()) {
                    return Err(EncodeError::StringTooLong);
                }
                proof {
                    assert(out@ =~= spec_client_encode(self@));
                }
                Ok(out)
            },
            ClientPacket::CreateFolder { dir, name } => {
                out.push(0);
                out.push(3);
                if !push_str(&mut out, dir.as_str()) {
                    return Err(EncodeError::StringTooLong);
                }
                if !push_str(&mut out, name.as_str()) {
                    return Err(EncodeError::StringTooLong);
                }
                proof {
                    assert(out@ =~= spec_client_encode(self@));
                }
                Ok(out)
            },
            ClientPacket::SkipFileHashCheck { dir, name } => {
                out.push(0);
                out.push(4);
                if !push_str(&mut out, dir.as_str()) {
                    return Err(EncodeError::StringTooLong);
                }
                if !push_str(&mut out, name.as_str()) {
                    return Err(EncodeError::StringTooLong);
                }
                proof {
                    assert(out@ =~= spec_client_encode(self@));
                }
                Ok(out)
            },
            ClientPacket::PatchNotes { take, skip } => {
                out.push(0);
                out.push(5);
                push_u32(&mut out, *take);
                push_u32(&mut out, *skip);
                proof {
                    assert(out@ =~= spec_client_encode(self@));
                }
                Ok(out)
            },
            ClientPacket::SavePatchNote { id, data } => {
                out.push(0);
                out.push(6);
                push_u32(&mut out, *id);
                if !push_str(&mut out, data.as_str()) {
                    return Err(EncodeError::StringTooLong);
                }
                proof {
                    assert(out@ =~= spec_client_encode(self@));
                }
                Ok(out)
            },
            ClientPacket::AddPatchNote { data } => {
                out.push(0);
                out.push(7);
                if !push_str(&mut out, data.as_str()) {
                    return Err(EncodeError::StringTooLong);
                }
                proof {
                    assert(out@ =~= spec_client_encode(self@));
                }
                Ok(out)
            },
            ClientPacket::DeletePatchNote { id } => {
                out.push(0);
                out.push(8);
                push_u32(&mut out, *id);
                proof {
                    assert(out@ =~= spec_client_encode(self@));
                }
                Ok(out)
            },
            ClientPacket::RequestEditPatchNote { id } => {
                out.push(0);
                out.push(9);
                push_u32(&mut out, *id);
                proof {
                    assert(out@ =~= spec_client_encode(self@));
                }
                Ok(out)
            },
            ClientPacket::Logs => {
                out.push(0);
                out.push(10);
                proof {
                    assert(out@ =~= spec_client_encode(self@));
                }
                Ok(out)
            },
            ClientPacket::AddFile { id, dir, name, file } => {
                out.push(1);
                if !push_str(&mut out, dir.as_str()) {
                    return Err(EncodeError::StringTooLong);
                }
                if !push_str(&mut out, name.as_str()) {
                    return Err(EncodeError::StringTooLong);
                }
                push_u128(&mut out, *id);
                let mut fb = vstd::slice::slice_to_vec(file.as_slice());
                out.append(&mut fb);
                proof {
                    assert(out@ =~= spec_client_encode(self@));
                }
                Ok(out)
            },
        }
    }

    /// Decode a frame; rejects malformed or truncated frames, unknown
    /// discriminants and trailing bytes, exactly as the specification
    /// parser does.
    pub fn from_bin(slice: &[u8]) -> (r: Result<ClientPacket, DecodeError>)
        ensures
            match r {
                Ok(p) => spec_client_decode(slice@) == Some(p@),
                Err(_) => spec_client_decode(slice@) is None,
            },
    {
        if slice.len() == 0 {
            return Err(DecodeError::Malformed);
        }
        let tag = *vstd::slice::slice_index_get(slice, 0);
        let mut pos: usize = 1;
        if tag == 1 {
            let dir = match read_str(slice, &mut pos) {
                Some(v) => v,
                None => {
                    return Err(DecodeError::Malformed);
                },
            };
            let name = match read_str(slice, &mut pos) {
                Some(v) => v,
                None => {
                    return Err(DecodeError::Malformed);
                },
            };
            if slice.len() - pos >= 16 {
                let idb = vstd::slice::slice_subrange(slice, pos, pos + 16);
                let id = vstd::bytes::u128_from_le_bytes(idb);
                let fileb = vstd::slice::slice_subrange(slice, pos + 16, slice.len());
                let file = vstd::slice::slice_to_vec(fileb);
                proof {
                    assert(fileb@ =~= slice@.skip(pos as int + 16));
                }
                Ok(ClientPacket::AddFile { id, dir, name, file })
            } else {
                Err(DecodeError::Malformed)
            }
        } else if tag == 0 {
            if slice.len() < 2 {
                return Err(DecodeError::Malformed);
            }
            let t = *vstd::slice::slice_index_get(slice, 1);
            pos = 2;
            if t == 0 {
                let dir = match read_str(slice, &mut pos) {
                    Some(v) => v,
                    None => {
                        return Err(DecodeError::Malformed);
                    },
                };
                if pos == slice.len() {
                    Ok(ClientPacket::FileList { dir })
                } else {
                    Err(DecodeError::Malformed)
                }
            } else if t == 1 || t == 2 || t == 3 || t == 4 {
                let dir = match read_str(slice, &mut pos) {
                    Some(v) => v,
                    None => {
                        return Err(DecodeError::Malformed);
                    },
                };
                let name = match read_str(slice, &mut pos) {
                    Some(v) => v,
                    None => {
                        return Err(DecodeError::Malformed);
                    },
                };
                if pos == slice.len() {
                    if t == 1 {
                        Ok(ClientPacket::RemoveFile { dir, name })
                    } else if t == 2 {
                        Ok(ClientPacket::RemoveFolder { dir, name })
                    } else if t == 3 {
                        Ok(ClientPacket::CreateFolder { dir, name })
                    } else {
                        Ok(ClientPacket::SkipFileHashCheck { dir, name })
                    }
                } else {
                    Err(DecodeError::Malformed)
                }
            } else if t == 5 {
                let take = match read_u32(slice, &mut pos) {
                    Some(v) => v,
                    None => {
                        return Err(DecodeError::Malformed);
                    },
                };
                let skip = match read_u32(slice, &mut pos) {
                    Some(v) => v,
                    None => {
                        return Err(DecodeError::Malformed);
                    },
                };
                if pos == slice.len() {
                    Ok(ClientPacket::PatchNotes { take, skip })
                } else {
                    Err(DecodeError::Malformed)
                }
            } else if t == 6 {
                let id = match read_u32(slice, &mut pos) {
                    Some(v) => v,
                    None => {
                        return Err(DecodeError::Malformed);
                    },
                };
                let data = match read_str(slice, &mut pos) {
                    Some(v) => v,
                    None => {
                        return Err(DecodeError::Malformed);
                    },
                };
                if pos == slice.len() {
                    Ok(ClientPacket::SavePatchNote { id, data })
                } else {
                    Err(DecodeError::Malformed)
                }
            } else if t == 7 {
                let data = match read_str(slice, &mut pos) {
                    Some(v) => v,
                    None => {
                        return Err(DecodeError::Malformed);
                    },
                };
                if pos == slice.len() {
                    Ok(ClientPacket::AddPatchNote { data })
                } else {
                    Err(DecodeError::Malformed)
                }
            } else if t == 8 || t == 9 {
                let id = match read_u32(slice, &mut pos) {
                    Some(v) => v,
                    None => {
                        return Err(DecodeError::Malformed);
                    },
                };
                if pos == slice.len() {
                    if t == 8 {
                        Ok(ClientPacket::DeletePatchNote { id })
                    } else {
                        Ok(ClientPacket::RequestEditPatchNote { id })
                    }
                } else {
                    Err(DecodeError::Malformed)
                }
            } else if t == 10 {
                if slice.len() == 2 {
                    Ok(ClientPacket::Logs)
                } else {
                    Err(DecodeError::Malformed)
                }
            } else {
                Err(DecodeError::Malformed)
            }
        } else {
            Err(DecodeError::Malformed)
        }
    }
}

impl ServerPacket {
    /// Encode for the wire; fails exactly when a string or a list
    /// exceeds the 32-bit length fields.  The encoding decodes back
    /// to this very message (see [`lemma_server_round_trip`]).
    pub fn to_bin(&self) -> (r: Result<Vec<u8>, EncodeError>)
        ensures
            match r {
                Ok(v) => server_encodable(self@) && v@ == spec_server_encode(self@),
                Err(_) => !server_encodable(self@),
            },
    {
        let mut out: Vec<u8> = Vec::new();
        match self {
            ServerPacket::FileList { dir, files, folders } => {
                out.push(0);
                if !push_str(&mut out, dir.as_str()) {
                    return Err(EncodeError::StringTooLong);
                }
                if files.len() > u32::MAX as usize {
                    return Err(EncodeError::ListTooLong);
                }
                push_u32(&mut out, files.len() as u32);
                if !push_files(&mut out, files) {
                    return Err(EncodeError::StringTooLong);
                }
                if folders.len() > u32::MAX as usize {
                    return Err(EncodeError::ListTooLong);
                }
                push_u32(&mut out, folders.len() as u32);
                if !push_folders(&mut out, folders) {
                    return Err(EncodeError::StringTooLong);
                }
                proof {
                    assert(out@ =~= spec_server_encode(self@));
                }
                Ok(out)
            },
            ServerPacket::Logs(logs) => {
                out.push(1);
                if logs.len() > u32::MAX as usize {
                    return Err(EncodeError::ListTooLong);
                }
                push_u32(&mut out, logs.len() as u32);
                if !push_logs(&mut out, logs) {
                    return Err(EncodeError::StringTooLong);
                }
                proof {
                    assert(out@ =~= spec_server_encode(self@));
                }
                Ok(out)
            },
            ServerPacket::FileUploaded { id } => {
                out.push(2);
                push_u128(&mut out, *id);
                proof {
                    assert(out@ =~= spec_server_encode(self@));
                }
                Ok(out)
            },
            ServerPacket::FileProceeded { id } => {
                out.push(3);
                push_u128(&mut out, *id);
                proof {
                    assert(out@ =~= spec_server_encode(self@));
                }
                Ok(out)
            },
            ServerPacket::PatchNotes { take, skip, total, patch_notes } => {
                out.push(4);
                push_u32(&mut out, *take);
                push_u32(&mut out, *skip);
                push_u32(&mut out, *total);
                if patch_notes.len() > u32::MAX as usize {
                    return Err(EncodeError::ListTooLong);
                }
                push_u32(&mut out, patch_notes.len() as u32);
                if !push_notes(&mut out, patch_notes) {
                    return Err(EncodeError::StringTooLong);
                }
                proof {
                    assert(out@ =~= spec_server_encode(self@));
                }
                Ok(out)
            },
            ServerPacket::OpenPatchNote(note) => {
                out.push(5);
                if !push_note(&mut out, note) {
                    return Err(EncodeError::StringTooLong);
                }
                proof {
                    assert(out@ =~= spec_server_encode(self@));
                }
                Ok(out)
            },
        }
    }

    /// Decode a frame; strict like the client side's decoder.
    pub fn from_bin(slice: &[u8]) -> (r: Result<ServerPacket, DecodeError>)
        ensures
            match r {
                Ok(p) => spec_server_decode(slice@) == Some(p@),
                Err(_) => spec_server_decode(slice@) is None,
            },
    {
        if slice.len() == 0 {
            return Err(DecodeError::Malformed);
        }
        let t = *vstd::slice::slice_index_get(slice, 0);
        let mut pos: usize = 1;
        if t == 0 {
            let dir = match read_str(slice, &mut pos) {
                Some(v) => v,
                None => {
                    return Err(DecodeError::Malformed);
                },
            };
            let nf = match read_u32(slice, &mut pos) {
                Some(v) => v,
                None => {
                    return Err(DecodeError::Malformed);
                },
            };
            let files = match read_files(slice, &mut pos, nf) {
                Some(v) => v,
                None => {
                    return Err(DecodeError::Malformed);
                },
            };
            let nd = match read_u32(slice, &mut pos) {
                Some(v) => v,
                None => {
                    return Err(DecodeError::Malformed);
                },
            };
            let folders = match read_folders(slice, &mut pos, nd) {
                Some(v) => v,
                None => {
                    return Err(DecodeError::Malformed);
                },
            };
            if pos == slice.len() {
                Ok(ServerPacket::FileList { dir, files, folders })
            } else {
                Err(DecodeError::Malformed)
            }
        } else if t == 1 {
            let n = match read_u32(slice, &mut pos) {
                Some(v) => v,
                None => {
                    return Err(DecodeError::Malformed);
                },
            };
            let logs = match read_logs(slice, &mut pos, n) {
                Some(v) => v,
                None => {
                    return Err(DecodeError::Malformed);
                },
            };
            if pos == slice.len() {
                Ok(ServerPacket::Logs(logs))
            } else {
                Err(DecodeError::Malformed)
            }
        } else if t == 2 || t == 3 {
            let id = match read_u128(slice, &mut pos) {
                Some(v) => v,
                None => {
                    return Err(DecodeError::Malformed);
                },
            };
            if pos == slice.len() {
                if t == 2 {
                    Ok(ServerPacket::FileUploaded { id })
                } else {
                    Ok(ServerPacket::FileProceeded { id })
                }
            } else {
                Err(DecodeError::Malformed)
            }
        } else if t == 4 {
            let take = match read_u32(slice, &mut pos) {
                Some(v) => v,
                None => {
                    return Err(DecodeError::Malformed);
                },
            };
            let skip = match read_u32(slice, &mut pos) {
                Some(v) => v,
                None => {
                    return Err(DecodeError::Malformed);
                },
            };
            let total = match read_u32(slice, &mut pos) {
                Some(v) => v,
                None => {
                    return Err(DecodeError::Malformed);
                },
            };
            let n = match read_u32(slice, &mut pos) {
                Some(v) => v,
                None => {
                    return Err(DecodeError::Malformed);
                },
            };
            let patch_notes = match read_notes(slice, &mut pos, n) {
                Some(v) => v,
                None => {
                    return Err(DecodeError::Malformed);
                },
            };
            if pos == slice.len() {
                Ok(ServerPacket::PatchNotes { take, skip, total, patch_notes })
            } else {
                Err(DecodeError::Malformed)
            }
        } else if t == 5 {
            let note = match read_note(slice, &mut pos) {
                Some(v) => v,
                None => {
                    return Err(DecodeError::Malformed);
                },
            };
            if pos == slice.len() {
                Ok(ServerPacket::OpenPatchNote(note))
            } else {
                Err(DecodeError::Malformed)
            }
        } else {
            Err(DecodeError::Malformed)
        }
    }
}

/// Shared case of the round trip: a tagged pair of strings.
proof fn lemma_two_str(b: Seq<u8>, dir: Seq<char>, name: Seq<char>)
    requires
        str_encodable(dir),
        str_encodable(name),
        b == seq![0u8, b[1]] + enc_str(dir) + enc_str(name),
        b.len() >= 2,
    ensures
        dec_str(b, 2) == Some((dir, 2 + enc_str(dir).len() as int)),
        dec_str(b, 2 + enc_str(dir).len() as int) == Some((name, b.len() as int)),
{
    let e1 = enc_str(dir);
    let e2 = enc_str(name);
    assert(b.subrange(2, 2 + e1.len() as int) =~= e1);
    lemma_dec_str(b, 2, dir);
    assert(b.subrange(2 + e1.len() as int, 2 + e1.len() as int + e2.len() as int) =~= e2);
    lemma_dec_str(b, 2 + e1.len() as int, name);
}

} // verus!
