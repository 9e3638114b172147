//! Messages and their wire format: a header of 24 bytes, then the payload.

use vstd::prelude::*;
use crate::error::{Detail, Error, ErrorKind};
use crate::le::{from_le32, law_le32_reads_back, le32, read_u32, write_u32};

verus! {

/// What a message asks for or answers.
#[derive(Debug, Clone, Copy, PartialEq, Eq, Structural)]
pub enum AdbCommand {
    CNXN,
    AUTH,
    OPEN,
    OKAY,
    CLSE,
    WRTE,
    Unknown(u32),
}

impl AdbCommand {
    /// The number of the command on the wire.
    pub open spec fn spec_code(self) -> u32 {
        match self {
            AdbCommand::CNXN => 0x4e58_4e43,
            AdbCommand::AUTH => 0x4854_5541,
            AdbCommand::OPEN => 0x4e45_504f,
            AdbCommand::OKAY => 0x5941_4b4f,
            AdbCommand::CLSE => 0x4553_4c43,
            AdbCommand::WRTE => 0x4554_5257,
            AdbCommand::Unknown(code) => code,
        }
    }

    /// The command with this number on the wire.
    pub open spec fn spec_from_code(code: u32) -> AdbCommand {
        if code == AdbCommand::CNXN.spec_code() {
            AdbCommand::CNXN
        } else if code == AdbCommand::AUTH.spec_code() {
            AdbCommand::AUTH
        } else if code == AdbCommand::OPEN.spec_code() {
            AdbCommand::OPEN
        } else if code == AdbCommand::OKAY.spec_code() {
            AdbCommand::OKAY
        } else if code == AdbCommand::CLSE.spec_code() {
            AdbCommand::CLSE
        } else if code == AdbCommand::WRTE.spec_code() {
            AdbCommand::WRTE
        } else {
            AdbCommand::Unknown(code)
        }
    }

    /// The number of the command on the wire.
    pub fn code(self) -> (code: u32)
        ensures
            code == self.spec_code(),
    {
        match self {
            AdbCommand::CNXN => 0x4e58_4e43,
            AdbCommand::AUTH => 0x4854_5541,
            AdbCommand::OPEN => 0x4e45_504f,
            AdbCommand::OKAY => 0x5941_4b4f,
            AdbCommand::CLSE => 0x4553_4c43,
            AdbCommand::WRTE => 0x4554_5257,
            AdbCommand::Unknown(code) => code,
        }
    }

    /// The command with this number on the wire.
    pub fn from_code(code: u32) -> (command: AdbCommand)
        ensures
            command == Self::spec_from_code(code),
    {
        match code {
            0x4e58_4e43 => AdbCommand::CNXN,
            0x4854_5541 => AdbCommand::AUTH,
            0x4e45_504f => AdbCommand::OPEN,
            0x5941_4b4f => AdbCommand::OKAY,
            0x4553_4c43 => AdbCommand::CLSE,
            0x4554_5257 => AdbCommand::WRTE,
            _ => AdbCommand::Unknown(code),
        }
    }
}

/// What stands in front of the payload of a message.
#[derive(Debug, Clone, Copy, PartialEq, Eq)]
pub struct AdbMessageHeader {
    pub command: AdbCommand,
    pub arg0: u32,
    pub arg1: u32,
    pub data_length: u32,
    pub data_check: u32,
}

/// The length of a header on the wire.
pub const HEADER_LENGTH: usize = 24;

/// The bytes of a header on the wire: five numbers, then the complement of the
/// first.
pub open spec fn header_bytes(header: AdbMessageHeader) -> Seq<u8> {
    le32(header.command.spec_code()) + le32(header.arg0) + le32(header.arg1) + le32(
        header.data_length,
    ) + le32(header.data_check) + le32((0xffff_ffff - header.command.spec_code()) as u32)
}

/// The number at position `i` of a header.
pub open spec fn header_word(bytes: Seq<u8>, i: int) -> u32 {
    from_le32(bytes.subrange(4 * i, 4 * i + 4))
}

/// The header at the start of `bytes`; there is none where the bytes are too
/// few, or the last number is not the complement of the first.
pub open spec fn parsed_header(bytes: Seq<u8>) -> Option<AdbMessageHeader> {
    if bytes.len() < HEADER_LENGTH || header_word(bytes, 5) != 0xffff_ffff - header_word(
        bytes,
        0,
    ) {
        None
    } else {
        Some(
            AdbMessageHeader {
                command: AdbCommand::spec_from_code(header_word(bytes, 0)),
                arg0: header_word(bytes, 1),
                arg1: header_word(bytes, 2),
                data_length: header_word(bytes, 3),
                data_check: header_word(bytes, 4),
            },
        )
    }
}

proof fn lemma_header_length(header: AdbMessageHeader)
    ensures
        header_bytes(header).len() == HEADER_LENGTH,
{
    let code = header.command.spec_code();
    law_le32_reads_back(code);
    law_le32_reads_back(header.arg0);
    law_le32_reads_back(header.arg1);
    law_le32_reads_back(header.data_length);
    law_le32_reads_back(header.data_check);
    law_le32_reads_back((0xffff_ffff - code) as u32);
}

impl AdbMessageHeader {
    /// Reads the header at the start of `bytes`.
    pub fn read(bytes: &[u8]) -> (header: Result<AdbMessageHeader, Error>)
        ensures
            match header {
                Ok(h) => parsed_header(bytes@) == Some(h),
                Err(e) => parsed_header(bytes@) is None && e == (Error {
                    kind: ErrorKind::InvalidData,
                    detail: Detail::MalformedHeader,
                }),
            },
    {
        if bytes.len() < HEADER_LENGTH {
            return Err(Error::with(ErrorKind::InvalidData, Detail::MalformedHeader));
        }
        let code = read_u32(bytes, 0);
        if read_u32(bytes, 20) != 0xffff_ffff - code {
            return Err(Error::with(ErrorKind::InvalidData, Detail::MalformedHeader));
        }
        Ok(
            AdbMessageHeader {
                command: AdbCommand::from_code(code),
                arg0: read_u32(bytes, 4),
                arg1: read_u32(bytes, 8),
                data_length: read_u32(bytes, 12),
                data_check: read_u32(bytes, 16),
            },
        )
    }

    /// The header as it stands on the wire.
    pub fn to_vec(&self) -> (bytes: Vec<u8>)
        ensures
            bytes@ == header_bytes(*self),
            bytes@.len() == HEADER_LENGTH,
    {
        let code = self.command.code();
        let mut bytes = write_u32(code);
        let mut arg0 = write_u32(self.arg0);
        let mut arg1 = write_u32(self.arg1);
        let mut length = write_u32(self.data_length);
        let mut check = write_u32(self.data_check);
        let mut magic = write_u32(0xffff_ffff - code);
        bytes.append(&mut arg0);
        bytes.append(&mut arg1);
        bytes.append(&mut length);
        bytes.append(&mut check);
        bytes.append(&mut magic);
        proof {
            lemma_header_length(*self);
        }
        bytes
    }
}

/// Whether the command is not a known one under the name of an unknown one.
pub open spec fn canonical(command: AdbCommand) -> bool {
    AdbCommand::spec_from_code(command.spec_code()) == command
}

/// A header reads back from its bytes, whatever follows them.
pub proof fn law_header_reads_back(header: AdbMessageHeader, rest: Seq<u8>)
    requires
        canonical(header.command),
    ensures
        header_bytes(header).len() == HEADER_LENGTH,
        parsed_header(header_bytes(header) + rest) == Some(header),
{
    let bytes = header_bytes(header) + rest;
    let code = header.command.spec_code();
    law_le32_reads_back(code);
    law_le32_reads_back(header.arg0);
    law_le32_reads_back(header.arg1);
    law_le32_reads_back(header.data_length);
    law_le32_reads_back(header.data_check);
    law_le32_reads_back((0xffff_ffff - code) as u32);
    assert(bytes.subrange(0, 4) =~= le32(code));
    assert(bytes.subrange(4, 8) =~= le32(header.arg0));
    assert(bytes.subrange(8, 12) =~= le32(header.arg1));
    assert(bytes.subrange(12, 16) =~= le32(header.data_length));
    assert(bytes.subrange(16, 20) =~= le32(header.data_check));
    assert(bytes.subrange(20, 24) =~= le32((0xffff_ffff - code) as u32));
}

/// The sum of the bytes.
pub open spec fn byte_sum(bytes: Seq<u8>) -> int
    decreases bytes.len(),
{
    if bytes.len() == 0 {
        0
    } else {
        byte_sum(bytes.drop_last()) + bytes.last()
    }
}

/// A message.
#[derive(Debug, Clone, PartialEq, Eq)]
pub struct AdbMessage {
    pub header: AdbMessageHeader,
    pub payload: Vec<u8>,
}

/// A message, with its payload as a sequence.
#[verifier::ext_equal]
pub struct MessageView {
    pub header: AdbMessageHeader,
    pub payload: Seq<u8>,
}

impl View for AdbMessage {
    type V = MessageView;

    open spec fn view(&self) -> MessageView {
        MessageView { header: self.header, payload: self.payload@ }
    }
}

/// The message with this command, these arguments and this payload.
pub open spec fn message(command: AdbCommand, arg0: u32, arg1: u32, payload: Seq<u8>) -> MessageView {
    MessageView {
        header: AdbMessageHeader {
            command,
            arg0,
            arg1,
            data_length: (payload.len() % 0x1_0000_0000) as u32,
            data_check: (byte_sum(payload) % 0x1_0000_0000) as u32,
        },
        payload,
    }
}

fn checksum(bytes: &Vec<u8>) -> (sum: u32)
    ensures
        sum == byte_sum(bytes@) % 0x1_0000_0000,
{
    let mut sum: u32 = 0;
    let mut i: usize = 0;
    while i < bytes.len()
        invariant
            i <= bytes@.len(),
            sum == byte_sum(bytes@.take(i as int)) % 0x1_0000_0000,
        decreases bytes@.len() - i,
    {
        assert(bytes@.take(i + 1).drop_last() =~= bytes@.take(i as int));
        sum = sum.wrapping_add(bytes[i] as u32);
        i += 1;
    }
    assert(bytes@.take(i as int) =~= bytes@);
    sum
}

impl AdbMessage {
    /// The message with this command, these arguments and this payload.
    pub fn new(command: AdbCommand, arg0: u32, arg1: u32, payload: Vec<u8>) -> (msg: AdbMessage)
        ensures
            msg@ == message(command, arg0, arg1, payload@),
    {
        let data_check = checksum(&payload);
        let data_length: u32 = (payload.len() as u64 % 0x1_0000_0000) as u32;
        AdbMessage {
            header: AdbMessageHeader { command, arg0, arg1, data_length, data_check },
            payload,
        }
    }
}

/// On the wire, the number of a command is its name: four letters, one byte
/// each.
pub proof fn law_commands_are_spelled(bytes: Seq<u8>, command: AdbCommand)
    requires
        bytes == le32(command.spec_code()),
        !(command is Unknown),
    ensures
        canonical(command),
        bytes == match command {
            AdbCommand::CNXN => seq!['C' as u8, 'N' as u8, 'X' as u8, 'N' as u8],
            AdbCommand::AUTH => seq!['A' as u8, 'U' as u8, 'T' as u8, 'H' as u8],
            AdbCommand::OPEN => seq!['O' as u8, 'P' as u8, 'E' as u8, 'N' as u8],
            AdbCommand::OKAY => seq!['O' as u8, 'K' as u8, 'A' as u8, 'Y' as u8],
            AdbCommand::CLSE => seq!['C' as u8, 'L' as u8, 'S' as u8, 'E' as u8],
            _ => seq!['W' as u8, 'R' as u8, 'T' as u8, 'E' as u8],
        },
{
    reveal(le32);
    assert(bytes =~= match command {
        AdbCommand::CNXN => seq![0x43u8, 0x4e, 0x58, 0x4e],
        AdbCommand::AUTH => seq![0x41u8, 0x55, 0x54, 0x48],
        AdbCommand::OPEN => seq![0x4fu8, 0x50, 0x45, 0x4e],
        AdbCommand::OKAY => seq![0x4fu8, 0x4b, 0x41, 0x59],
        AdbCommand::CLSE => seq![0x43u8, 0x4c, 0x53, 0x45],
        _ => seq![0x57u8, 0x52, 0x54, 0x45],
    });
}

/// Each number of a header stands at its own place on the wire: the command,
/// the two arguments, the length, the sum, and what makes the command up to
/// all ones.
pub proof fn law_header_places(header: AdbMessageHeader)
    ensures
        ({
            let bytes = header_bytes(header);
            &&& bytes.len() == 24
            &&& from_le32(bytes.subrange(0, 4)) == header.command.spec_code()
            &&& from_le32(bytes.subrange(4, 8)) == header.arg0
            &&& from_le32(bytes.subrange(8, 12)) == header.arg1
            &&& from_le32(bytes.subrange(12, 16)) == header.data_length
            &&& from_le32(bytes.subrange(16, 20)) == header.data_check
            &&& from_le32(bytes.subrange(20, 24)) + header.command.spec_code() == 0xffff_ffff
        }),
{
    let bytes = header_bytes(header);
    let code = header.command.spec_code();
    law_le32_reads_back(code);
    law_le32_reads_back(header.arg0);
    law_le32_reads_back(header.arg1);
    law_le32_reads_back(header.data_length);
    law_le32_reads_back(header.data_check);
    law_le32_reads_back((0xffff_ffff - code) as u32);
    assert(bytes.subrange(0, 4) =~= le32(code));
    assert(bytes.subrange(4, 8) =~= le32(header.arg0));
    assert(bytes.subrange(8, 12) =~= le32(header.arg1));
    assert(bytes.subrange(12, 16) =~= le32(header.data_length));
    assert(bytes.subrange(16, 20) =~= le32(header.data_check));
    assert(bytes.subrange(20, 24) =~= le32((0xffff_ffff - code) as u32));
}

/// A header is read only where its last number makes the first up to all ones,
/// and then each number is read from its own place.
pub proof fn law_header_is_read_from_its_places(
    bytes: &[u8],
    res: Result<AdbMessageHeader, Error>,
)
    requires
        call_ensures(AdbMessageHeader::read, (bytes,), res),
    ensures
        res is Ok <==> bytes@.len() >= 24 && from_le32(bytes@.subrange(0, 4)) + from_le32(
            bytes@.subrange(20, 24),
        ) == 0xffff_ffff,
        res matches Ok(h) ==> {
            &&& h.command.spec_code() == from_le32(bytes@.subrange(0, 4))
            &&& h.arg0 == from_le32(bytes@.subrange(4, 8))
            &&& h.arg1 == from_le32(bytes@.subrange(8, 12))
            &&& h.data_length == from_le32(bytes@.subrange(12, 16))
            &&& h.data_check == from_le32(bytes@.subrange(16, 20))
        },
{
}

/// A message says of itself what it is, and counts its payload: its length, and
/// the sum of its bytes.
pub proof fn law_messages_count_their_payload(
    command: AdbCommand,
    arg0: u32,
    arg1: u32,
    payload: Vec<u8>,
    msg: AdbMessage,
    more: Vec<u8>,
    longer: AdbMessage,
    byte: u8,
)
    requires
        call_ensures(AdbMessage::new, (command, arg0, arg1, payload), msg),
        call_ensures(AdbMessage::new, (command, arg0, arg1, more), longer),
        more@ == payload@.push(byte),
    ensures
        msg.header.command == command,
        msg.header.arg0 == arg0,
        msg.header.arg1 == arg1,
        msg.payload@ == payload@,
        payload@.len() < 0x1_0000_0000 ==> msg.header.data_length == payload@.len(),
        payload@.len() == 0 ==> msg.header.data_check == 0,
        longer.header.data_check == (msg.header.data_check + byte) % 0x1_0000_0000,
{
    assert(more@.drop_last() =~= payload@);
    assert(longer@.header.data_check == byte_sum(more@) % 0x1_0000_0000);
}

/// The commands that are known are told by the four letters of their names, and
/// every other number is kept as it is.
pub proof fn law_commands_are_told_by_their_letters(
    code: u32,
    command: AdbCommand,
    back: u32,
    other: AdbCommand,
    number: u32,
)
    requires
        call_ensures(AdbCommand::from_code, (code,), command),
        call_ensures(AdbCommand::code, (command,), back),
        call_ensures(AdbCommand::code, (other,), number),
    ensures
        back == code,
        command is CNXN <==> le32(code) == seq!['C' as u8, 'N' as u8, 'X' as u8, 'N' as u8],
        command is AUTH <==> le32(code) == seq!['A' as u8, 'U' as u8, 'T' as u8, 'H' as u8],
        command is OPEN <==> le32(code) == seq!['O' as u8, 'P' as u8, 'E' as u8, 'N' as u8],
        command is OKAY <==> le32(code) == seq!['O' as u8, 'K' as u8, 'A' as u8, 'Y' as u8],
        command is CLSE <==> le32(code) == seq!['C' as u8, 'L' as u8, 'S' as u8, 'E' as u8],
        command is WRTE <==> le32(code) == seq!['W' as u8, 'R' as u8, 'T' as u8, 'E' as u8],
        !(other is Unknown) && number == code ==> command == other,
{
    law_le32_reads_back(code);
    law_commands_are_spelled(le32(AdbCommand::CNXN.spec_code()), AdbCommand::CNXN);
    law_commands_are_spelled(le32(AdbCommand::AUTH.spec_code()), AdbCommand::AUTH);
    law_commands_are_spelled(le32(AdbCommand::OPEN.spec_code()), AdbCommand::OPEN);
    law_commands_are_spelled(le32(AdbCommand::OKAY.spec_code()), AdbCommand::OKAY);
    law_commands_are_spelled(le32(AdbCommand::CLSE.spec_code()), AdbCommand::CLSE);
    law_commands_are_spelled(le32(AdbCommand::WRTE.spec_code()), AdbCommand::WRTE);
    law_le32_reads_back(AdbCommand::CNXN.spec_code());
    law_le32_reads_back(AdbCommand::AUTH.spec_code());
    law_le32_reads_back(AdbCommand::OPEN.spec_code());
    law_le32_reads_back(AdbCommand::OKAY.spec_code());
    law_le32_reads_back(AdbCommand::CLSE.spec_code());
    law_le32_reads_back(AdbCommand::WRTE.spec_code());
}

/// A header that is written has its numbers in their places, and what reads it
/// reads them from there.
pub proof fn law_written_headers_are_read(
    header: &AdbMessageHeader,
    written: Vec<u8>,
    slice: &[u8],
    rest: Seq<u8>,
    read: Result<AdbMessageHeader, Error>,
    code: u32,
    known: AdbCommand,
)
    requires
        call_ensures(AdbMessageHeader::to_vec, (header,), written),
        slice@ == written@ + rest,
        call_ensures(AdbMessageHeader::read, (slice,), read),
        call_ensures(AdbCommand::code, (header.command,), code),
        call_ensures(AdbCommand::from_code, (code,), known),
    ensures
        written@.len() == 24,
        from_le32(written@.subrange(0, 4)) == code,
        from_le32(written@.subrange(4, 8)) == header.arg0,
        from_le32(written@.subrange(8, 12)) == header.arg1,
        from_le32(written@.subrange(12, 16)) == header.data_length,
        from_le32(written@.subrange(16, 20)) == header.data_check,
        from_le32(written@.subrange(20, 24)) + code == 0xffff_ffff,
        read matches Ok(h) && h.command == known && h.arg0 == header.arg0 && h.arg1 == header.arg1
            && h.data_length == header.data_length && h.data_check == header.data_check,
{
    law_header_places(*header);
    assert(slice@.subrange(0, 4) =~= written@.subrange(0, 4));
    assert(slice@.subrange(4, 8) =~= written@.subrange(4, 8));
    assert(slice@.subrange(8, 12) =~= written@.subrange(8, 12));
    assert(slice@.subrange(12, 16) =~= written@.subrange(12, 16));
    assert(slice@.subrange(16, 20) =~= written@.subrange(16, 20));
    assert(slice@.subrange(20, 24) =~= written@.subrange(20, 24));
}

} // verus!
