//! The wire codec for peer commands.
//!
//! Every command travels in an envelope: a `u16` command id and a `u32`
//! payload length, both little-endian, then the payload. Inside a payload a
//! string is a `u16` byte length followed by its UTF-8 bytes, an integer is
//! eight little-endian bytes, a flag is one byte (0 or 1), and the bytes of a
//! write run to the end of the payload.
use vstd::prelude::*;
use vstd::utf8::{decode_utf8, encode_utf8, encode_utf8_decode_utf8, encode_utf8_valid_utf8, valid_utf8};
use crate::bytes::{append_range, copy_range};
use crate::wire::{
    le_u16, le_u32, le_u64, lemma_u16_bytes, lemma_u32_bytes, lemma_u64_bytes, push_u16_le,
    push_u32_le, push_u64_le, read_u16_le, read_u32_le, read_u64_le, u16_bytes, u32_bytes,
    u64_bytes, CMD_CREATE_FOLDER, CMD_LIST_FOLDER_CONTENTS, CMD_MOVE, CMD_READ_FILE, CMD_REMOVE,
    CMD_WRITE_FILE, INTRODUCE_CMD,
};

verus! {

broadcast use {encode_utf8_valid_utf8, encode_utf8_decode_utf8};

/// A node's identity as it introduces itself.
#[derive(Debug)]
pub struct Introduce {
    pub id: String,
    pub name: String,
    pub owner: String,
}

/// A command that one peer sends another.
#[derive(Debug)]
pub enum PeerCmd {
    ReadFile { node_id: String, path: String, offset: u64, length: u64 },
    WriteFile { node_id: String, path: String, offset: u64, data: Vec<u8> },
    RemoveFile { node_id: String, path: String },
    CreateFolder { node_id: String, path: String },
    RenameFolder { node_id: String, path: String, new_name: String },
    RemoveFolder { node_id: String, path: String },
    ListFolderContents { node_id: String, path: String, offset: u64, length: u64, recursive: bool },
    Introduce(Introduce),
    Hello,
}

/// A `PeerCmd` as a mathematical value.
pub enum CmdView {
    ReadFile { node_id: Seq<char>, path: Seq<char>, offset: u64, length: u64 },
    WriteFile { node_id: Seq<char>, path: Seq<char>, offset: u64, data: Seq<u8> },
    RemoveFile { node_id: Seq<char>, path: Seq<char> },
    CreateFolder { node_id: Seq<char>, path: Seq<char> },
    RenameFolder { node_id: Seq<char>, path: Seq<char>, new_name: Seq<char> },
    RemoveFolder { node_id: Seq<char>, path: Seq<char> },
    ListFolderContents {
        node_id: Seq<char>,
        path: Seq<char>,
        offset: u64,
        length: u64,
        recursive: bool,
    },
    Introduce { id: Seq<char>, name: Seq<char>, owner: Seq<char> },
    Hello,
}

impl View for PeerCmd {
    type V = CmdView;

    open spec fn view(&self) -> CmdView {
        match self {
            PeerCmd::ReadFile { node_id, path, offset, length } => CmdView::ReadFile {
                node_id: node_id@,
                path: path@,
                offset: *offset,
                length: *length,
            },
            PeerCmd::WriteFile { node_id, path, offset, data } => CmdView::WriteFile {
                node_id: node_id@,
                path: path@,
                offset: *offset,
                data: data@,
            },
            PeerCmd::RemoveFile { node_id, path } => CmdView::RemoveFile {
                node_id: node_id@,
                path: path@,
            },
            PeerCmd::CreateFolder { node_id, path } => CmdView::CreateFolder {
                node_id: node_id@,
                path: path@,
            },
            PeerCmd::RenameFolder { node_id, path, new_name } => CmdView::RenameFolder {
                node_id: node_id@,
                path: path@,
                new_name: new_name@,
            },
            PeerCmd::RemoveFolder { node_id, path } => CmdView::RemoveFolder {
                node_id: node_id@,
                path: path@,
            },
            PeerCmd::ListFolderContents { node_id, path, offset, length, recursive } =>
                CmdView::ListFolderContents {
                node_id: node_id@,
                path: path@,
                offset: *offset,
                length: *length,
                recursive: *recursive,
            },
            PeerCmd::Introduce(args) => CmdView::Introduce {
                id: args.id@,
                name: args.name@,
                owner: args.owner@,
            },
            PeerCmd::Hello => CmdView::Hello,
        }
    }
}

pub open spec fn cmd_views(cmds: Seq<PeerCmd>) -> Seq<CmdView> {
    cmds.map_values(|c: PeerCmd| c@)
}

/// Why a command could not be encoded.
#[derive(Clone, Copy, Debug, PartialEq, Eq, Structural)]
pub enum EncodeError {
    /// The command has no wire form.
    Unsupported,
    /// A string is longer than 65535 bytes, or the payload longer than a
    /// `u32` can count.
    FieldTooLong,
}

// ---------------------------------------------------------------------------
// Encoding
/// A string field: its UTF-8 length as a `u16`, then its UTF-8 bytes.
pub open spec fn str_field(s: Seq<char>) -> Seq<u8> {
    u16_bytes(encode_utf8(s).len()) + encode_utf8(s)
}

pub open spec fn flag_field(b: bool) -> Seq<u8> {
    seq![if b { 1u8 } else { 0u8 }]
}

pub open spec fn str_fits(s: Seq<char>) -> bool {
    encode_utf8(s).len() <= 0xFFFF
}

/// The command id under which a command travels.
pub open spec fn cmd_id_of(c: CmdView) -> u16 {
    match c {
        CmdView::ReadFile { .. } => CMD_READ_FILE,
        CmdView::WriteFile { .. } => CMD_WRITE_FILE,
        CmdView::RemoveFile { .. } => CMD_REMOVE,
        CmdView::CreateFolder { .. } => CMD_CREATE_FOLDER,
        CmdView::RenameFolder { .. } => CMD_MOVE,
        CmdView::RemoveFolder { .. } => CMD_REMOVE,
        CmdView::ListFolderContents { .. } => CMD_LIST_FOLDER_CONTENTS,
        CmdView::Introduce { .. } => INTRODUCE_CMD,
        CmdView::Hello => 0,
    }
}

/// The payload of a command, its fields in declaration order.
pub open spec fn payload_of(c: CmdView) -> Seq<u8> {
    match c {
        CmdView::ReadFile { node_id, path, offset, length } => str_field(node_id) + (str_field(path)
            + (u64_bytes(offset as nat) + u64_bytes(length as nat))),
        CmdView::WriteFile { node_id, path, offset, data } => str_field(node_id) + (str_field(path)
            + (u64_bytes(offset as nat) + data)),
        CmdView::RemoveFile { node_id, path } => str_field(node_id) + (str_field(path)
            + flag_field(false)),
        CmdView::CreateFolder { node_id, path } => str_field(node_id) + str_field(path),
        CmdView::RenameFolder { node_id, path, new_name } => str_field(node_id) + (str_field(path)
            + str_field(new_name)),
        CmdView::RemoveFolder { node_id, path } => str_field(node_id) + (str_field(path)
            + flag_field(true)),
        CmdView::ListFolderContents { node_id, path, offset, length, recursive } => str_field(
            node_id,
        ) + (str_field(path) + (u64_bytes(offset as nat) + (u64_bytes(length as nat) + flag_field(
            recursive,
        )))),
        CmdView::Introduce { id, name, owner } => str_field(id) + (str_field(name) + str_field(
            owner,
        )),
        CmdView::Hello => seq![],
    }
}

/// Every string of the command fits its `u16` length field.
pub open spec fn strings_fit(c: CmdView) -> bool {
    match c {
        CmdView::ReadFile { node_id, path, .. } => str_fits(node_id) && str_fits(path),
        CmdView::WriteFile { node_id, path, .. } => str_fits(node_id) && str_fits(path),
        CmdView::RemoveFile { node_id, path } => str_fits(node_id) && str_fits(path),
        CmdView::CreateFolder { node_id, path } => str_fits(node_id) && str_fits(path),
        CmdView::RenameFolder { node_id, path, new_name } => str_fits(node_id) && str_fits(path)
            && str_fits(new_name),
        CmdView::RemoveFolder { node_id, path } => str_fits(node_id) && str_fits(path),
        CmdView::ListFolderContents { node_id, path, .. } => str_fits(node_id) && str_fits(path),
        CmdView::Introduce { id, name, owner } => str_fits(id) && str_fits(name) && str_fits(owner),
        CmdView::Hello => true,
    }
}

/// The command has a wire form.
pub open spec fn encodable(c: CmdView) -> bool {
    &&& !(c is Hello)
    &&& strings_fit(c)
    &&& payload_of(c).len() <= u32::MAX
}

/// A command in its envelope.
pub open spec fn frame_of(c: CmdView) -> Seq<u8> {
    u16_bytes(cmd_id_of(c) as nat) + u32_bytes(payload_of(c).len()) + payload_of(c)
}

fn str_fits_exec(s: &String) -> (r: bool)
    ensures
        r == str_fits(s@),
{
    s.as_str().as_bytes().len() <= 0xFFFF
}

fn push_str(out: &mut Vec<u8>, s: &String)
    requires
        str_fits(s@),
    ensures
        final(out)@ == old(out)@ + str_field(s@),
{
    let bytes = s.as_str().as_bytes();
    push_u16_le(out, bytes.len() as u16);
    append_range(out, bytes, 0, bytes.len());
    assert(final(out)@ =~= old(out)@ + str_field(s@));
}

fn push_flag(out: &mut Vec<u8>, b: bool)
    ensures
        final(out)@ == old(out)@ + flag_field(b),
{
    out.push(if b { 1u8 } else { 0u8 });
    assert(final(out)@ =~= old(out)@ + flag_field(b));
}

impl PeerCmd {
    /// The payload of the command, and its command id.
    fn payload(&self) -> (r: Result<(u16, Vec<u8>), EncodeError>)
        ensures
            match r {
                Ok((id, p)) => !(self@ is Hello) && strings_fit(self@) && id == cmd_id_of(self@)
                    && p@ == payload_of(self@),
                Err(e) => if self@ is Hello {
                    e == EncodeError::Unsupported
                } else {
                    !strings_fit(self@) && e == EncodeError::FieldTooLong
                },
            },
    {
        let mut payload: Vec<u8> = Vec::new();
        let cmd_id: u16;
        match self {
            PeerCmd::ReadFile { node_id, path, offset, length } => {
                if !str_fits_exec(node_id) || !str_fits_exec(path) {
                    return Err(EncodeError::FieldTooLong);
                }
                push_str(&mut payload, node_id);
                push_str(&mut payload, path);
                push_u64_le(&mut payload, *offset);
                push_u64_le(&mut payload, *length);
                cmd_id = CMD_READ_FILE;
            },
            PeerCmd::WriteFile { node_id, path, offset, data } => {
                if !str_fits_exec(node_id) || !str_fits_exec(path) {
                    return Err(EncodeError::FieldTooLong);
                }
                push_str(&mut payload, node_id);
                push_str(&mut payload, path);
                push_u64_le(&mut payload, *offset);
                append_range(&mut payload, data.as_slice(), 0, data.len());
                cmd_id = CMD_WRITE_FILE;
            },
            PeerCmd::RemoveFile { node_id, path } => {
                if !str_fits_exec(node_id) || !str_fits_exec(path) {
                    return Err(EncodeError::FieldTooLong);
                }
                push_str(&mut payload, node_id);
                push_str(&mut payload, path);
                push_flag(&mut payload, false);
                cmd_id = CMD_REMOVE;
            },
            PeerCmd::CreateFolder { node_id, path } => {
                if !str_fits_exec(node_id) || !str_fits_exec(path) {
                    return Err(EncodeError::FieldTooLong);
                }
                push_str(&mut payload, node_id);
                push_str(&mut payload, path);
                cmd_id = CMD_CREATE_FOLDER;
            },
            PeerCmd::RenameFolder { node_id, path, new_name } => {
                if !str_fits_exec(node_id) || !str_fits_exec(path) || !str_fits_exec(new_name) {
                    return Err(EncodeError::FieldTooLong);
                }
                push_str(&mut payload, node_id);
                push_str(&mut payload, path);
                push_str(&mut payload, new_name);
                cmd_id = CMD_MOVE;
            },
            PeerCmd::RemoveFolder { node_id, path } => {
                if !str_fits_exec(node_id) || !str_fits_exec(path) {
                    return Err(EncodeError::FieldTooLong);
                }
                push_str(&mut payload, node_id);
                push_str(&mut payload, path);
                push_flag(&mut payload, true);
                cmd_id = CMD_REMOVE;
            },
            PeerCmd::ListFolderContents { node_id, path, offset, length, recursive } => {
                if !str_fits_exec(node_id) || !str_fits_exec(path) {
                    return Err(EncodeError::FieldTooLong);
                }
                push_str(&mut payload, node_id);
                push_str(&mut payload, path);
                push_u64_le(&mut payload, *offset);
                push_u64_le(&mut payload, *length);
                push_flag(&mut payload, *recursive);
                cmd_id = CMD_LIST_FOLDER_CONTENTS;
            },
            PeerCmd::Introduce(args) => {
                if !str_fits_exec(&args.id) || !str_fits_exec(&args.name) || !str_fits_exec(
                    &args.owner,
                ) {
                    return Err(EncodeError::FieldTooLong);
                }
                push_str(&mut payload, &args.id);
                push_str(&mut payload, &args.name);
                push_str(&mut payload, &args.owner);
                cmd_id = INTRODUCE_CMD;
            },
            PeerCmd::Hello => {
                return Err(EncodeError::Unsupported);
            },
        }
        assert(payload@ =~= payload_of(self@));
        Ok((cmd_id, payload))
    }

    /// The command in its envelope, or why it has no wire form.
    pub fn serialize(&self) -> (r: Result<Vec<u8>, EncodeError>)
        ensures
            match r {
                Ok(bytes) => encodable(self@) && bytes@ == frame_of(self@),
                Err(e) => !encodable(self@) && (e == EncodeError::Unsupported <==> self@ is Hello),
            },
    {
        let (cmd_id, payload) = match self.payload() {
            Ok(r) => r,
            Err(e) => return Err(e),
        };
        if payload.len() > 0xFFFF_FFFF {
            return Err(EncodeError::FieldTooLong);
        }
        let mut out: Vec<u8> = Vec::new();
        push_u16_le(&mut out, cmd_id);
        push_u32_le(&mut out, payload.len() as u32);
        append_range(&mut out, payload.as_slice(), 0, payload.len());
        assert(out@ =~= frame_of(self@));
        Ok(out)
    }
}

// ---------------------------------------------------------------------------
// Decoding
/// Reads a string field from the front of `p`: the string and what follows.
pub open spec fn take_str(p: Seq<u8>) -> Option<(Seq<char>, Seq<u8>)> {
    if p.len() < 2 {
        None
    } else {
        let n = le_u16(p, 0) as int;
        if p.len() < 2 + n {
            None
        } else {
            let b = p.subrange(2, 2 + n);
            if valid_utf8(b) {
                Some((decode_utf8(b), p.subrange(2 + n, p.len() as int)))
            } else {
                None
            }
        }
    }
}

pub open spec fn take_u64(p: Seq<u8>) -> Option<(u64, Seq<u8>)> {
    if p.len() < 8 {
        None
    } else {
        Some((le_u64(p, 0) as u64, p.subrange(8, p.len() as int)))
    }
}

pub open spec fn take_flag(p: Seq<u8>) -> Option<(bool, Seq<u8>)> {
    if p.len() < 1 || p[0] > 1 {
        None
    } else {
        Some((p[0] == 1, p.subrange(1, p.len() as int)))
    }
}

/// The node id and path that most commands begin with.
pub open spec fn take_target(p: Seq<u8>) -> Option<(Seq<char>, Seq<char>, Seq<u8>)> {
    match take_str(p) {
        Some((node_id, p1)) => match take_str(p1) {
            Some((path, p2)) => Some((node_id, path, p2)),
            None => None,
        },
        None => None,
    }
}

/// The command that a payload under `cmd_id` holds; `None` for an unknown id
/// or a malformed payload.
#[verifier::opaque]
pub open spec fn decode_payload(cmd_id: u16, p: Seq<u8>) -> Option<CmdView> {
    match take_target(p) {
        None => None,
        Some((a, b, q)) => {
            if cmd_id == INTRODUCE_CMD {
                match take_str(q) {
                    Some((owner, q2)) => if q2.len() == 0 {
                        Some(CmdView::Introduce { id: a, name: b, owner })
                    } else {
                        None
                    },
                    None => None,
                }
            } else if cmd_id == CMD_WRITE_FILE {
                match take_u64(q) {
                    Some((offset, q2)) => Some(
                        CmdView::WriteFile { node_id: a, path: b, offset, data: q2 },
                    ),
                    None => None,
                }
            } else if cmd_id == CMD_READ_FILE {
                match take_u64(q) {
                    Some((offset, q2)) => match take_u64(q2) {
                        Some((length, q3)) => if q3.len() == 0 {
                            Some(CmdView::ReadFile { node_id: a, path: b, offset, length })
                        } else {
                            None
                        },
                        None => None,
                    },
                    None => None,
                }
            } else if cmd_id == CMD_REMOVE {
                match take_flag(q) {
                    Some((recursive, q2)) => if q2.len() != 0 {
                        None
                    } else if recursive {
                        Some(CmdView::RemoveFolder { node_id: a, path: b })
                    } else {
                        Some(CmdView::RemoveFile { node_id: a, path: b })
                    },
                    None => None,
                }
            } else if cmd_id == CMD_CREATE_FOLDER {
                if q.len() == 0 {
                    Some(CmdView::CreateFolder { node_id: a, path: b })
                } else {
                    None
                }
            } else if cmd_id == CMD_MOVE {
                match take_str(q) {
                    Some((new_name, q2)) => if q2.len() == 0 {
                        Some(CmdView::RenameFolder { node_id: a, path: b, new_name })
                    } else {
                        None
                    },
                    None => None,
                }
            } else if cmd_id == CMD_LIST_FOLDER_CONTENTS {
                match take_u64(q) {
                    Some((offset, q2)) => match take_u64(q2) {
                        Some((length, q3)) => match take_flag(q3) {
                            Some((recursive, q4)) => if q4.len() == 0 {
                                Some(
                                    CmdView::ListFolderContents {
                                        node_id: a,
                                        path: b,
                                        offset,
                                        length,
                                        recursive,
                                    },
                                )
                            } else {
                                None
                            },
                            None => None,
                        },
                        None => None,
                    },
                    None => None,
                }
            } else {
                None
            }
        },
    }
}

pub open spec fn opt_seq(o: Option<CmdView>) -> Seq<CmdView> {
    match o {
        Some(c) => seq![c],
        None => seq![],
    }
}

/// Splits `b` into whole envelopes: the commands they hold, in order, and
/// the bytes of the envelope that has not arrived whole.
pub open spec fn frames(b: Seq<u8>) -> (Seq<CmdView>, Seq<u8>)
    decreases b.len(),
{
    if b.len() < 6 {
        (seq![], b)
    } else {
        let n = le_u32(b, 2) as int;
        if b.len() < 6 + n {
            (seq![], b)
        } else {
            let r = frames(b.subrange(6 + n, b.len() as int));
            (opt_seq(decode_payload(le_u16(b, 0) as u16, b.subrange(6, 6 + n))) + r.0, r.1)
        }
    }
}

/// Relies on String::from_utf8: it accepts exactly the well-formed UTF-8
/// byte sequences, and the string holds the characters that they encode.
#[verifier::external_body]
fn utf8_string(bytes: Vec<u8>) -> (r: Option<String>)
    ensures
        r is Some <==> valid_utf8(bytes@),
        r is Some ==> r->0@ == decode_utf8(bytes@),
{
    String::from_utf8(bytes).ok()
}

/// Reads fields from the front of a payload.
pub struct ByteEater<'a> {
    buffer: &'a [u8],
}

impl<'a> View for ByteEater<'a> {
    type V = Seq<u8>;

    closed spec fn view(&self) -> Seq<u8> {
        self.buffer@
    }
}

impl<'a> ByteEater<'a> {
    pub fn new(buffer: &'a [u8]) -> (r: Self)
        ensures
            r@ == buffer@,
    {
        Self { buffer }
    }

    /// Whether every byte has been read.
    pub fn is_empty(&self) -> (r: bool)
        ensures
            r == (self@.len() == 0),
    {
        self.buffer.len() == 0
    }

    /// The `u16` at the front, read without moving past it.
    pub fn get_u16(&mut self) -> (r: Option<u16>)
        ensures
            final(self)@ == old(self)@,
            old(self)@.len() < 2 ==> r is None,
            old(self)@.len() >= 2 ==> r == Some(le_u16(old(self)@, 0) as u16),
    {
        let b = self.buffer;
        if b.len() < 2 {
            return None;
        }
        Some(read_u16_le(b, 0))
    }

    pub fn get_u64(&mut self) -> (r: Option<u64>)
        ensures
            match take_u64(old(self)@) {
                Some((v, rest)) => r == Some(v) && final(self)@ == rest,
                None => r is None && final(self)@ == old(self)@,
            },
    {
        let b = self.buffer;
        if b.len() < 8 {
            return None;
        }
        let v = read_u64_le(b, 0);
        self.buffer = &b[8..b.len()];
        Some(v)
    }

    pub fn get_bool(&mut self) -> (r: Option<bool>)
        ensures
            match take_flag(old(self)@) {
                Some((v, rest)) => r == Some(v) && final(self)@ == rest,
                None => r is None && final(self)@ == old(self)@,
            },
    {
        let b = self.buffer;
        if b.len() < 1 || b[0] > 1 {
            return None;
        }
        let v = b[0] == 1;
        self.buffer = &b[1..b.len()];
        Some(v)
    }

    pub fn get_string(&mut self) -> (r: Option<String>)
        ensures
            match take_str(old(self)@) {
                Some((s, rest)) => r is Some && r->0@ == s && final(self)@ == rest,
                None => r is None && final(self)@ == old(self)@,
            },
    {
        let n = match self.get_u16() {
            Some(n) => n as usize,
            None => return None,
        };
        let b = self.buffer;
        if b.len() - 2 < n {
            return None;
        }
        let bytes = copy_range(b, 2, 2 + n);
        match utf8_string(bytes) {
            Some(s) => {
                self.buffer = &b[2 + n..b.len()];
                Some(s)
            },
            None => None,
        }
    }

    /// Everything not yet read.
    pub fn rest(&mut self) -> (r: Vec<u8>)
        ensures
            r@ == old(self)@,
            final(self)@.len() == 0,
    {
        let b = self.buffer;
        let r = copy_range(b, 0, b.len());
        self.buffer = &b[b.len()..b.len()];
        assert(r@ =~= b@);
        r
    }
}

pub open spec fn opt_view(o: Option<PeerCmd>) -> Option<CmdView> {
    match o {
        Some(c) => Some(c@),
        None => None,
    }
}

/// Decodes the payload of one envelope.
pub fn decode_payload_exec(cmd_id: u16, payload: &[u8]) -> (r: Option<PeerCmd>)
    ensures
        opt_view(r) == decode_payload(cmd_id, payload@),
{
    reveal(decode_payload);
    let mut eater = ByteEater::new(payload);
    let a = match eater.get_string() {
        Some(s) => s,
        None => return None,
    };
    let b = match eater.get_string() {
        Some(s) => s,
        None => return None,
    };
    if cmd_id == INTRODUCE_CMD {
        let owner = match eater.get_string() {
            Some(s) => s,
            None => return None,
        };
        if !eater.is_empty() {
            return None;
        }
        Some(PeerCmd::Introduce(Introduce { id: a, name: b, owner }))
    } else if cmd_id == CMD_WRITE_FILE {
        let offset = match eater.get_u64() {
            Some(v) => v,
            None => return None,
        };
        let data = eater.rest();
        Some(PeerCmd::WriteFile { node_id: a, path: b, offset, data })
    } else if cmd_id == CMD_READ_FILE {
        let offset = match eater.get_u64() {
            Some(v) => v,
            None => return None,
        };
        let length = match eater.get_u64() {
            Some(v) => v,
            None => return None,
        };
        if !eater.is_empty() {
            return None;
        }
        Some(PeerCmd::ReadFile { node_id: a, path: b, offset, length })
    } else if cmd_id == CMD_REMOVE {
        let recursive = match eater.get_bool() {
            Some(v) => v,
            None => return None,
        };
        if !eater.is_empty() {
            return None;
        }
        if recursive {
            Some(PeerCmd::RemoveFolder { node_id: a, path: b })
        } else {
            Some(PeerCmd::RemoveFile { node_id: a, path: b })
        }
    } else if cmd_id == CMD_CREATE_FOLDER {
        if !eater.is_empty() {
            return None;
        }
        Some(PeerCmd::CreateFolder { node_id: a, path: b })
    } else if cmd_id == CMD_MOVE {
        let new_name = match eater.get_string() {
            Some(s) => s,
            None => return None,
        };
        if !eater.is_empty() {
            return None;
        }
        Some(PeerCmd::RenameFolder { node_id: a, path: b, new_name })
    } else if cmd_id == CMD_LIST_FOLDER_CONTENTS {
        let offset = match eater.get_u64() {
            Some(v) => v,
            None => return None,
        };
        let length = match eater.get_u64() {
            Some(v) => v,
            None => return None,
        };
        let recursive = match eater.get_bool() {
            Some(v) => v,
            None => return None,
        };
        if !eater.is_empty() {
            return None;
        }
        Some(PeerCmd::ListFolderContents { node_id: a, path: b, offset, length, recursive })
    } else {
        None
    }
}

/// A parser as a mathematical value: the bytes of an envelope that has not
/// arrived whole, and the decoded commands not yet taken.
pub struct ParserView {
    pub buffer: Seq<u8>,
    pub queue: Seq<CmdView>,
}

/// Gathers inbound bytes and decodes each whole envelope into a queued
/// command. An envelope with an unknown command id or a malformed payload is
/// skipped, and decoding goes on after it.
pub struct Parser {
    buffer: Vec<u8>,
    queue: Vec<PeerCmd>,
}

impl View for Parser {
    type V = ParserView;

    closed spec fn view(&self) -> ParserView {
        ParserView { buffer: self.buffer@, queue: cmd_views(self.queue@) }
    }
}

impl Parser {
    pub fn new() -> (r: Parser)
        ensures
            r@ == (ParserView { buffer: seq![], queue: seq![] }),
    {
        let r = Parser { buffer: Vec::new(), queue: Vec::new() };
        assert(r@.queue =~= seq![]);
        r
    }

    /// Takes in `data` after what was buffered, queues the command of every
    /// envelope that is now whole, and keeps the rest.
    pub fn parse(&mut self, data: &[u8])
        ensures
            final(self)@ == (ParserView {
                buffer: frames(old(self)@.buffer + data@).1,
                queue: old(self)@.queue + frames(old(self)@.buffer + data@).0,
            }),
    {
        let mut window: Vec<u8> = Vec::new();
        append_range(&mut window, self.buffer.as_slice(), 0, self.buffer.len());
        append_range(&mut window, data, 0, data.len());
        assert(window@ =~= old(self)@.buffer + data@);
        let ghost total = frames(window@);
        let mut pos: usize = 0;
        assert(window@.subrange(0, window@.len() as int) =~= window@);
        loop
            invariant
                pos <= window@.len(),
                window@ == old(self)@.buffer + data@,
                total == frames(window@),
                frames(window@.subrange(pos as int, window@.len() as int)).1 == total.1,
                cmd_views(self.queue@) + frames(
                    window@.subrange(pos as int, window@.len() as int),
                ).0 == old(self)@.queue + total.0,
            ensures
                window@.subrange(pos as int, window@.len() as int) == total.1,
                cmd_views(self.queue@) == old(self)@.queue + total.0,
            decreases window@.len() - pos,
        {
            let ghost rest = window@.subrange(pos as int, window@.len() as int);
            let ghost before = cmd_views(self.queue@);
            let avail = window.len() - pos;
            if avail < 6 {
                assert(before + seq![] =~= before);
                break;
            }
            let n = read_u32_le(window.as_slice(), pos + 2) as usize;
            assert(le_u32(rest, 2) == le_u32(window@, pos + 2));
            if avail - 6 < n {
                assert(before + seq![] =~= before);
                break;
            }
            let cmd_id = read_u16_le(window.as_slice(), pos);
            assert(le_u16(rest, 0) == le_u16(window@, pos as int));
            let payload = &window.as_slice()[pos + 6..pos + 6 + n];
            assert(payload@ =~= rest.subrange(6, 6 + n));
            assert(rest.subrange(6 + n, rest.len() as int) =~= window@.subrange(
                pos + 6 + n,
                window@.len() as int,
            ));
            match decode_payload_exec(cmd_id, payload) {
                Some(c) => {
                    self.queue.push(c);
                    assert(cmd_views(self.queue@) =~= before + seq![c@]);
                },
                None => {
                    assert(cmd_views(self.queue@) =~= before + seq![]);
                },
            }
            pos = pos + 6 + n;
        }
        self.buffer = copy_range(window.as_slice(), pos, window.len());
    }

    /// Takes the oldest queued command.
    pub fn next(&mut self) -> (r: Option<PeerCmd>)
        ensures
            old(self)@.queue.len() == 0 ==> r is None && final(self)@ == old(self)@,
            old(self)@.queue.len() > 0 ==> r is Some && r->0@ == old(self)@.queue[0]
                && final(self)@ == (ParserView {
                buffer: old(self)@.buffer,
                queue: old(self)@.queue.drop_first(),
            }),
    {
        if self.queue.len() == 0 {
            return None;
        }
        let c = self.queue.remove(0);
        assert(cmd_views(self.queue@) =~= cmd_views(old(self).queue@).drop_first());
        Some(c)
    }
}

proof fn lemma_take_str(s: Seq<char>, rest: Seq<u8>)
    requires
        str_fits(s),
    ensures
        take_str(str_field(s) + rest) == Some((s, rest)),
{
    let e = encode_utf8(s);
    let k = e.len() as int;
    let p = str_field(s) + rest;
    assert(p.subrange(0, 2) =~= u16_bytes(e.len()));
    lemma_u16_bytes(e.len(), p, 0);
    assert(p.subrange(2, 2 + k) =~= e);
    assert(p.subrange(2 + k, p.len() as int) =~= rest);
}

proof fn lemma_take_u64(v: u64, rest: Seq<u8>)
    ensures
        take_u64(u64_bytes(v as nat) + rest) == Some((v, rest)),
{
    let p = u64_bytes(v as nat) + rest;
    assert(p.subrange(0, 8) =~= u64_bytes(v as nat));
    lemma_u64_bytes(v as nat, p, 0);
    assert(p.subrange(8, p.len() as int) =~= rest);
}

proof fn lemma_take_flag(b: bool, rest: Seq<u8>)
    ensures
        take_flag(flag_field(b) + rest) == Some((b, rest)),
{
    let p = flag_field(b) + rest;
    assert(p.subrange(1, p.len() as int) =~= rest);
}

proof fn lemma_take_last_str(s: Seq<char>)
    requires
        str_fits(s),
    ensures
        take_str(str_field(s)) == Some((s, Seq::<u8>::empty())),
{
    lemma_take_str(s, seq![]);
    assert(str_field(s) + seq![] =~= str_field(s));
}

/// Decoding the payload of an encodable command under its command id gives
/// the command back, every field of it.
pub proof fn lemma_payload_round_trip(c: CmdView)
    requires
        encodable(c),
    ensures
        decode_payload(cmd_id_of(c), payload_of(c)) == Some(c),
{
    reveal(decode_payload);
    let e: Seq<u8> = seq![];
    match c {
        CmdView::ReadFile { node_id, path, offset, length } => {
            let tail = u64_bytes(offset as nat) + u64_bytes(length as nat);
            lemma_take_str(node_id, str_field(path) + tail);
            lemma_take_str(path, tail);
            lemma_take_u64(offset, u64_bytes(length as nat));
            lemma_take_u64(length, e);
            assert(u64_bytes(length as nat) + e =~= u64_bytes(length as nat));
        },
        CmdView::WriteFile { node_id, path, offset, data } => {
            let tail = u64_bytes(offset as nat) + data;
            lemma_take_str(node_id, str_field(path) + tail);
            lemma_take_str(path, tail);
            lemma_take_u64(offset, data);
        },
        CmdView::RemoveFile { node_id, path } => {
            lemma_take_str(node_id, str_field(path) + flag_field(false));
            lemma_take_str(path, flag_field(false));
            lemma_take_flag(false, e);
            assert(flag_field(false) + e =~= flag_field(false));
        },
        CmdView::CreateFolder { node_id, path } => {
            lemma_take_str(node_id, str_field(path));
            lemma_take_last_str(path);
        },
        CmdView::RenameFolder { node_id, path, new_name } => {
            lemma_take_str(node_id, str_field(path) + str_field(new_name));
            lemma_take_str(path, str_field(new_name));
            lemma_take_last_str(new_name);
        },
        CmdView::RemoveFolder { node_id, path } => {
            lemma_take_str(node_id, str_field(path) + flag_field(true));
            lemma_take_str(path, flag_field(true));
            lemma_take_flag(true, e);
            assert(flag_field(true) + e =~= flag_field(true));
        },
        CmdView::ListFolderContents { node_id, path, offset, length, recursive } => {
            let t2 = u64_bytes(length as nat) + flag_field(recursive);
            let tail = u64_bytes(offset as nat) + t2;
            lemma_take_str(node_id, str_field(path) + tail);
            lemma_take_str(path, tail);
            lemma_take_u64(offset, t2);
            lemma_take_u64(length, flag_field(recursive));
            lemma_take_flag(recursive, e);
            assert(flag_field(recursive) + e =~= flag_field(recursive));
        },
        CmdView::Introduce { id, name, owner } => {
            lemma_take_str(id, str_field(name) + str_field(owner));
            lemma_take_str(name, str_field(owner));
            lemma_take_last_str(owner);
        },
        CmdView::Hello => {},
    }
}

/// What `serialize` produces decodes to the command it encoded: an envelope,
/// whatever bytes follow it, yields exactly that command first.
pub proof fn lemma_round_trip(c: CmdView, rest: Seq<u8>)
    requires
        encodable(c),
    ensures
        frames(frame_of(c) + rest) == (seq![c] + frames(rest).0, frames(rest).1),
        frames(frame_of(c)) == (seq![c], Seq::<u8>::empty()),
{
    let payload = payload_of(c);
    let n = payload.len() as int;
    let b = frame_of(c) + rest;
    assert(b.subrange(0, 2) =~= u16_bytes(cmd_id_of(c) as nat));
    lemma_u16_bytes(cmd_id_of(c) as nat, b, 0);
    assert(b.subrange(2, 6) =~= u32_bytes(n as nat));
    lemma_u32_bytes(n as nat, b, 2);
    assert(b.subrange(6, 6 + n) =~= payload);
    assert(b.subrange(6 + n, b.len() as int) =~= rest);
    lemma_payload_round_trip(c);
    let e: Seq<u8> = seq![];
    assert(frame_of(c) + e =~= frame_of(c));
    if rest.len() == 0 {
        assert(rest =~= e);
    }
    let b2 = frame_of(c);
    assert(b2.subrange(0, 2) =~= u16_bytes(cmd_id_of(c) as nat));
    lemma_u16_bytes(cmd_id_of(c) as nat, b2, 0);
    assert(b2.subrange(2, 6) =~= u32_bytes(n as nat));
    lemma_u32_bytes(n as nat, b2, 2);
    assert(b2.subrange(6, 6 + n) =~= payload);
    assert(b2.subrange(6 + n, b2.len() as int) =~= e);
    assert(frames(e) == (Seq::<CmdView>::empty(), e));
    assert(seq![c] + Seq::<CmdView>::empty() =~= seq![c]);
}

} // verus!
