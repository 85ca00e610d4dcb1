//! The protocol of time servers: the packet that asks, and the packet that answers.

use vstd::prelude::*;
use vstd::string::*;

use crate::text::{decimal, u64_text};

verus! {

/// The port that time servers listen on.
pub const NTP_PORT: u16 = 123;

/// The bytes of a packet.
pub const NTP_PACKET_SIZE: usize = 48;

/// Where in a packet the time stands at which the server sent it.
pub const TRANSMIT_TIME_OFFSET: usize = 40;

/// The seconds from 1900, where the protocol counts from, to 1970.
pub const NTP_TO_UNIX_SECONDS: i64 = 2_208_988_800;

/// The first byte of a packet that asks: version 4, from a client.
pub const CLIENT_REQUEST: u8 = 0x23;

/// Asks time servers.
#[derive(Debug, Clone, Copy, PartialEq, Eq, Structural)]
pub struct SntpClient {
    timeout_ms: u64,
}

impl Default for SntpClient {
    /// Waits three seconds.
    fn default() -> (r: Self)
        ensures
            r.timeout() == 3_000,
    {
        SntpClient { timeout_ms: 3_000 }
    }
}

/// The number that four bytes stand for, the highest first.
pub open spec fn big_endian(buffer: Seq<u8>, offset: int) -> int {
    ((buffer[offset] * 256 + buffer[offset + 1]) * 256 + buffer[offset + 2]) * 256 + buffer[offset
        + 3]
}

/// The time at which a server sent a packet: milliseconds since 1970.
pub open spec fn transmit_time(buffer: Seq<u8>) -> int {
    (big_endian(buffer, TRANSMIT_TIME_OFFSET as int) - NTP_TO_UNIX_SECONDS) * 1_000 + (big_endian(
        buffer,
        TRANSMIT_TIME_OFFSET + 4,
    ) * 1_000) / 0x1_0000_0000
}

/// The number that four bytes stand for, the highest first.
pub fn read_unsigned_int(buffer: &[u8], offset: usize) -> (r: i64)
    requires
        offset + 4 <= buffer@.len(),
    ensures
        r == big_endian(buffer@, offset as int),
        0 <= r < 0x1_0000_0000,
{
    let a: i64 = buffer[offset] as i64;
    let b: i64 = buffer[offset + 1] as i64;
    let c: i64 = buffer[offset + 2] as i64;
    let d: i64 = buffer[offset + 3] as i64;
    ((a * 256 + b) * 256 + c) * 256 + d
}

/// What is reported of an answer that is too short.
pub open spec fn short_text(len: nat) -> Seq<char> {
    "short NTP response: "@ + decimal(len) + " bytes"@
}

impl SntpClient {
    /// How long an answer is waited for.
    pub closed spec fn timeout(self) -> u64 {
        self.timeout_ms
    }

    /// Waits this long for an answer.
    pub fn new(timeout_ms: u64) -> (r: SntpClient)
        ensures
            r.timeout() == timeout_ms,
    {
        SntpClient { timeout_ms }
    }

    /// How long an answer is waited for.
    pub fn timeout_ms(&self) -> (r: u64)
        ensures
            r == self.timeout(),
    {
        self.timeout_ms
    }

    /// The packet that asks.
    pub fn request_packet() -> (r: Vec<u8>)
        ensures
            r@ == Seq::new(
                NTP_PACKET_SIZE as nat,
                |i: int|
                    if i == 0 {
                        CLIENT_REQUEST
                    } else {
                        0u8
                    },
            ),
            r@.len() == 48,
            r@[0] == 0x23,
            forall|i: int| 1 <= i < 48 ==> #[trigger] r@[i] == 0,
    {
        let mut packet: Vec<u8> = Vec::new();
        packet.push(CLIENT_REQUEST);
        let mut i: usize = 1;
        while i < NTP_PACKET_SIZE
            invariant
                1 <= i <= NTP_PACKET_SIZE,
                packet@.len() == i,
                packet@[0] == CLIENT_REQUEST,
                forall|j: int| 1 <= j < i ==> #[trigger] packet@[j] == 0u8,
            decreases NTP_PACKET_SIZE - i,
        {
            packet.push(0u8);
            i = i + 1;
        }
        packet
    }

    /// The time at which a server sent a packet: milliseconds since 1970.
    pub fn read_transmit_time(buffer: &[u8]) -> (r: i64)
        requires
            buffer@.len() >= NTP_PACKET_SIZE,
        ensures
            r == transmit_time(buffer@),
    {
        let seconds: i64 = read_unsigned_int(buffer, TRANSMIT_TIME_OFFSET);
        let fraction: i64 = read_unsigned_int(buffer, TRANSMIT_TIME_OFFSET + 4);
        let millis: i64 = (fraction * 1_000) / 0x1_0000_0000;
        (seconds - NTP_TO_UNIX_SECONDS) * 1_000 + millis
    }

    /// The time that an answer of `len` bytes tells, or why it tells none.
    pub fn read_answer(buffer: &[u8], len: usize) -> (r: Result<i64, String>)
        requires
            buffer@.len() >= NTP_PACKET_SIZE,
        ensures
            match r {
                Ok(millis) => len >= NTP_PACKET_SIZE && millis == transmit_time(buffer@),
                Err(text) => len < NTP_PACKET_SIZE && text@ == short_text(len as nat),
            },
    {
        if len < NTP_PACKET_SIZE {
            let mut text: String = "short NTP response: ".to_owned();
            text.append(u64_text(len as u64).as_str());
            text.append(" bytes");
            return Err(text);
        }
        Ok(Self::read_transmit_time(buffer))
    }
}

/// The time of an answer: the four bytes from the fortieth on are seconds since 1900, the highest
/// first, and the four behind them parts of a second. Seventy years are taken off.
pub proof fn answers_tell_seconds_since_1900(buffer: Seq<u8>)
    requires
        buffer.len() >= 48,
    ensures
        ({
            let seconds = buffer[40] * 16_777_216 + buffer[41] * 65_536 + buffer[42] * 256
                + buffer[43];
            let fraction = buffer[44] * 16_777_216 + buffer[45] * 65_536 + buffer[46] * 256
                + buffer[47];
            &&& big_endian(buffer, 40) == seconds
            &&& big_endian(buffer, 44) == fraction
            &&& transmit_time(buffer) == (seconds - 2_208_988_800) * 1_000 + fraction * 1_000
                / 4_294_967_296
            &&& 0 <= transmit_time(buffer) - (seconds - 2_208_988_800) * 1_000 < 1_000
        }),
{
}

/// What is said of an answer that is too short tells its length.
pub proof fn short_answers_tell_their_length(len: nat)
    ensures
        short_text(len) == "short NTP response: "@ + decimal(len) + " bytes"@,
        NTP_PACKET_SIZE == 48,
        NTP_PORT == 123,
{
}
} // verus!
