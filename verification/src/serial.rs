//! Serial port connections: configuration, validation, connection state,
//! and the byte transformations applied to outgoing and incoming data.
use vstd::prelude::*;

use crate::error::CastermError;
use crate::ids::IdSource;
use crate::pane::SerialMsg;
use crate::text::{decimal, push_char, push_decimal, push_str_chars};

verus! {

/// Unique serial connection identifier.
#[derive(Debug, Clone, Copy, PartialEq, Eq, Structural)]
pub struct SerialId(pub u64);

impl SerialId {
    /// Take the next identifier from `source`.
    pub fn next(source: &mut IdSource) -> (id: SerialId)
        ensures
            id.0 == old(source).peek(),
            final(source).peek() == if old(source).peek() == u64::MAX {
                0
            } else {
                (old(source).peek() + 1) as u64
            },
    {
        SerialId(source.fresh())
    }

    /// How the identifier is shown: `serial-` and its number.
    pub fn label(&self) -> (s: String)
        ensures
            s@ == "serial-"@ + decimal(self.0 as nat),
    {
        proof {
            broadcast use vstd::string::group_string_axioms;
        }
        let mut s = "serial-".to_string();
        push_decimal(&mut s, self.0);
        s
    }
}

/// Serial port data bits.
#[derive(Debug, Clone, Copy, PartialEq, Eq, Structural)]
pub enum DataBits {
    Five,
    Six,
    Seven,
    Eight,
}

impl Default for DataBits {
    fn default() -> (d: Self)
        ensures
            d == DataBits::Eight,
    {
        DataBits::Eight
    }
}

/// Serial port parity.
#[derive(Debug, Clone, Copy, PartialEq, Eq, Structural)]
pub enum Parity {
    NoParity,
    Odd,
    Even,
    Mark,
    Space,
}

impl Default for Parity {
    fn default() -> (p: Self)
        ensures
            p == Parity::NoParity,
    {
        Parity::NoParity
    }
}

/// Serial port stop bits.
#[derive(Debug, Clone, Copy, PartialEq, Eq, Structural)]
pub enum StopBits {
    One,
    OneAndHalf,
    Two,
}

impl Default for StopBits {
    fn default() -> (s: Self)
        ensures
            s == StopBits::One,
    {
        StopBits::One
    }
}

/// Flow control mode.
#[derive(Debug, Clone, Copy, PartialEq, Eq, Structural)]
pub enum FlowControl {
    NoFlowControl,
    Hardware,
    Software,
}

impl Default for FlowControl {
    fn default() -> (f: Self)
        ensures
            f == FlowControl::NoFlowControl,
    {
        FlowControl::NoFlowControl
    }
}

/// Newline conversion mode.
#[derive(Debug, Clone, Copy, PartialEq, Eq, Structural)]
pub enum NewlineMode {
    PassThrough,
    CrLf,
    Lf,
    Cr,
}

impl Default for NewlineMode {
    fn default() -> (n: Self)
        ensures
            n == NewlineMode::PassThrough,
    {
        NewlineMode::PassThrough
    }
}

/// Serial connection configuration.
#[derive(Debug, Clone)]
pub struct SerialConfig {
    /// Connection identifier
    pub id: SerialId,
    /// Display name for this connection
    pub name: String,
    /// Device path (e.g. /dev/ttyUSB0 on Linux, COM3 on Windows)
    pub device: String,
    /// Baud rate
    pub baud_rate: u32,
    /// Data bits
    pub data_bits: DataBits,
    /// Parity
    pub parity: Parity,
    /// Stop bits
    pub stop_bits: StopBits,
    /// Flow control
    pub flow_control: FlowControl,
    /// Newline conversion
    pub newline: NewlineMode,
    /// Enable hex view mode
    pub hex_mode: bool,
    /// Auto-reconnect on device disconnect
    pub auto_reconnect: bool,
    /// Seconds between reconnect attempts
    pub reconnect_delay: u32,
    /// Optional color label for visual identification
    pub color: Option<String>,
}

impl SerialConfig {
    /// The default configuration for `device` (the platform's usual serial
    /// device path): 115200 baud, 8N1, no flow control, newlines passed
    /// through, auto-reconnect every 5 seconds.
    pub fn new(id: SerialId, device: String) -> (c: Self)
        ensures
            c.id == id,
            c.name@ == Seq::<char>::empty(),
            c.device == device,
            c.baud_rate == 115200,
            c.data_bits == DataBits::Eight,
            c.parity == Parity::NoParity,
            c.stop_bits == StopBits::One,
            c.flow_control == FlowControl::NoFlowControl,
            c.newline == NewlineMode::PassThrough,
            !c.hex_mode,
            c.auto_reconnect,
            c.reconnect_delay == 5,
            c.color is None,
    {
        SerialConfig {
            id,
            name: String::new(),
            device,
            baud_rate: 115200,
            data_bits: DataBits::Eight,
            parity: Parity::NoParity,
            stop_bits: StopBits::One,
            flow_control: FlowControl::NoFlowControl,
            newline: NewlineMode::PassThrough,
            hex_mode: false,
            auto_reconnect: true,
            reconnect_delay: 5,
            color: None,
        }
    }
}

/// Serial connection state.
#[derive(Debug, Clone, Copy, PartialEq, Eq, Structural)]
pub enum SerialState {
    Disconnected,
    Connecting,
    Connected,
    Failed,
}

/// Validate a serial config: the device path must be non-empty and the baud
/// rate non-zero.
pub fn validate(config: &SerialConfig) -> (r: Result<(), CastermError>)
    ensures
        config.device@.len() == 0 ==> (r matches Err(CastermError::Config(m)) && m@
            == "Serial device path cannot be empty"@),
        config.device@.len() > 0 && config.baud_rate == 0 ==> (r matches Err(
            CastermError::Config(m),
        ) && m@ == "Serial baud rate must be non-zero"@),
        config.device@.len() > 0 && config.baud_rate != 0 ==> r is Ok,
{
    proof {
        broadcast use vstd::string::group_string_axioms;
    }
    if config.device.as_str().is_empty() {
        return Err(CastermError::Config("Serial device path cannot be empty".to_string()));
    }
    if config.baud_rate == 0 {
        return Err(CastermError::Config("Serial baud rate must be non-zero".to_string()));
    }
    Ok(())
}

/// The port names an enumeration gave, as text: none when it failed.
pub open spec fn port_names(enumerated: Option<Vec<String>>) -> Seq<Seq<char>> {
    match enumerated {
        Some(v) => v@.map_values(|s: String| s@),
        None => Seq::empty(),
    }
}

/// The available serial ports, from the system's enumeration of them
/// (`None` when enumeration failed, which lists no ports).
pub fn list_ports(enumerated: Option<Vec<String>>) -> (ports: Vec<String>)
    ensures
        ports@.map_values(|s: String| s@) == port_names(enumerated),
        enumerated matches Some(v) ==> ports@ == v@,
        enumerated is None ==> ports@.len() == 0,
{
    match enumerated {
        Some(ports) => ports,
        None => Vec::new(),
    }
}

/// The names joined with `", "` between them.
pub open spec fn joined(names: Seq<Seq<char>>) -> Seq<char>
    decreases names.len(),
{
    if names.len() == 0 {
        Seq::empty()
    } else if names.len() == 1 {
        names[0]
    } else {
        joined(names.drop_last()) + ", "@ + names.last()
    }
}

/// The error text a failed connection reports: the open error, followed by
/// the ports that do exist (or a note that there are none).
pub open spec fn connect_failure_text(err: Seq<char>, available: Seq<Seq<char>>) -> Seq<char> {
    if available.len() == 0 {
        err + " (no serial ports detected)"@
    } else {
        err + " (available ports: "@ + joined(available) + ")"@
    }
}

/// Build the message a failed connection reports.
pub fn connect_failure_message(err: &str, available: &Vec<String>) -> (m: String)
    ensures
        m@ == connect_failure_text(err@, available@.map_values(|s: String| s@)),
{
    proof {
        broadcast use vstd::string::group_string_axioms;
    }
    let ghost names = available@.map_values(|s: String| s@);
    let mut m = err.to_string();
    if available.len() == 0 {
        push_str_chars(&mut m, " (no serial ports detected)");
        return m;
    }
    push_str_chars(&mut m, " (available ports: ");
    let ghost head = m@;
    let mut i: usize = 0;
    while i < available.len()
        invariant
            names == available@.map_values(|s: String| s@),
            available@.len() > 0,
            i <= available@.len(),
            m@ == head + joined(names.take(i as int)),
        decreases available.len() - i,
    {
        if i > 0 {
            push_str_chars(&mut m, ", ");
        }
        push_str_chars(&mut m, available[i].as_str());
        proof {
            assert(names.take(i + 1).drop_last() =~= names.take(i as int));
            if i == 0 {
                assert(joined(names.take(0)) =~= Seq::<char>::empty());
            }
        }
        i = i + 1;
    }
    push_str_chars(&mut m, ")");
    assert(names.take(names.len() as int) =~= names);
    m
}

/// A serial connection: its configuration and state. The device itself is
/// opened and driven by the caller's transport; this records the outcome.
pub struct SerialConnection {
    pub config: SerialConfig,
    pub state: SerialState,
    /// Error message if state is Failed
    pub error: Option<String>,
    /// Whether a transport is attached (the device is open).
    pub transport_open: bool,
}

impl SerialConnection {
    /// Whether a transport is attached (the device is open).
    pub open spec fn is_open(&self) -> bool {
        self.transport_open
    }

    pub fn new(config: SerialConfig) -> (c: Self)
        ensures
            c.config == config,
            c.state == SerialState::Disconnected,
            c.error is None,
            !c.is_open(),
    {
        SerialConnection { config, state: SerialState::Disconnected, error: None, transport_open: false }
    }

    /// Record the outcome of opening the device. On success the connection is
    /// `Connected`; on failure it is `Failed`, with an error naming the ports
    /// that are available (`enumerated`, as the system listed them), and
    /// that error is returned as well.
    pub fn connect(&mut self, opened: Result<(), String>, enumerated: Option<Vec<String>>) -> (r: Result<
        (),
        CastermError,
    >)
        ensures
            final(self).config == old(self).config,
            opened is Ok ==> {
                &&& r is Ok
                &&& final(self).state == SerialState::Connected
                &&& final(self).error is None
                &&& final(self).is_open()
            },
            opened matches Err(e) ==> {
                let text = connect_failure_text(e@, port_names(enumerated));
                &&& r matches Err(CastermError::Serial(m)) && m@ == text
                &&& final(self).state == SerialState::Failed
                &&& final(self).error matches Some(m) && m@ == text
                &&& final(self).is_open() == old(self).is_open()
            },
    {
        self.state = SerialState::Connecting;
        match opened {
            Ok(()) => {
                self.transport_open = true;
                self.state = SerialState::Connected;
                self.error = None;
                Ok(())
            },
            Err(e) => {
                self.state = SerialState::Failed;
                let available = list_ports(enumerated);
                let message = connect_failure_message(e.as_str(), &available);
                self.error = Some(message.clone());
                Err(CastermError::Serial(message))
            },
        }
    }

    /// Write keystrokes to the device: with the configured newline
    /// conversion applied, the bytes go to `send`, which writes them out.
    /// Nothing is sent while the device is not open.
    pub fn write<F: FnOnce(&[u8]) -> Result<(), String>>(&mut self, data: &[u8], send: F) -> (r: Result<
        (),
        CastermError,
    >)
        requires
            forall|b: &[u8]| send.requires((b,)),
        ensures
            *final(self) == *old(self),
            !old(self).is_open() ==> (r matches Err(CastermError::Serial(m)) && m@
                == "serial port is not open"@),
            old(self).is_open() ==> exists|b: &[u8], w: Result<(), String>|
                {
                    &&& b@ == with_newline_mode(data@, old(self).config.newline)
                    &&& #[trigger] send.ensures((b,), w)
                    &&& match w {
                        Ok(()) => r is Ok,
                        Err(e) => r matches Err(CastermError::Serial(m)) && m@ == "write failed: "@
                            + e@,
                    }
                },
    {
        proof {
            broadcast use vstd::string::group_string_axioms;
        }
        if !self.transport_open {
            return Err(CastermError::Serial("serial port is not open".to_string()));
        }
        let converted = apply_newline_mode(data, self.config.newline);
        let w = send(converted.as_slice());
        match w {
            Ok(()) => Ok(()),
            Err(e) => {
                let mut m = "write failed: ".to_string();
                push_str_chars(&mut m, e.as_str());
                Err(CastermError::Serial(m))
            },
        }
    }

    /// The next chunk from the device's reader, or its disconnect notice,
    /// as `poll` gives it; nothing while the device is not open (`poll` is
    /// then not called).
    pub fn try_recv<F: FnOnce() -> Option<SerialMsg>>(&self, poll: F) -> (m: Option<SerialMsg>)
        requires
            poll.requires(()),
        ensures
            !self.is_open() ==> m is None,
            self.is_open() ==> poll.ensures((), m),
    {
        if self.transport_open {
            poll()
        } else {
            None
        }
    }

    /// Close the port, discarding the transport.
    pub fn disconnect(&mut self)
        ensures
            final(self).config == old(self).config,
            final(self).error == old(self).error,
            final(self).state == SerialState::Disconnected,
            !final(self).is_open(),
    {
        self.transport_open = false;
        self.state = SerialState::Disconnected;
    }

    /// Whether incoming bytes are currently being hex-formatted for display:
    /// only while the device is open with hex mode configured.
    pub fn hex_mode(&self) -> (b: bool)
        ensures
            b == (self.is_open() && self.config.hex_mode),
    {
        self.transport_open && self.config.hex_mode
    }
}

/// `data` with every `\r\n` pair, and every other `\r` or `\n`, replaced by
/// `replacement`.
pub open spec fn converted_newlines(data: Seq<u8>, replacement: Seq<u8>) -> Seq<u8>
    decreases data.len(),
{
    if data.len() == 0 {
        Seq::empty()
    } else if data[0] == 0x0d && data.len() >= 2 && data[1] == 0x0a {
        replacement + converted_newlines(data.skip(2), replacement)
    } else if data[0] == 0x0d || data[0] == 0x0a {
        replacement + converted_newlines(data.skip(1), replacement)
    } else {
        seq![data[0]] + converted_newlines(data.skip(1), replacement)
    }
}

/// The replacement each newline mode writes for a line break (`None` for
/// pass-through, which leaves the data as it is).
pub open spec fn newline_replacement(mode: NewlineMode) -> Option<Seq<u8>> {
    match mode {
        NewlineMode::PassThrough => None,
        NewlineMode::CrLf => Some(seq![0x0du8, 0x0au8]),
        NewlineMode::Lf => Some(seq![0x0au8]),
        NewlineMode::Cr => Some(seq![0x0du8]),
    }
}

/// Replace every `\r`, `\n`, or `\r\n` run in `data` with `replacement`.
pub fn convert_newlines(data: &[u8], replacement: &[u8]) -> (out: Vec<u8>)
    ensures
        out@ == converted_newlines(data@, replacement@),
{
    let mut out: Vec<u8> = Vec::new();
    let mut i: usize = 0;
    let len = data.len();
    assert(data@.skip(0) =~= data@);
    assert(out@ + converted_newlines(data@, replacement@) =~= converted_newlines(data@, replacement@));
    while i < len
        invariant
            len == data@.len(),
            i <= len,
            out@ + converted_newlines(data@.skip(i as int), replacement@) == converted_newlines(
                data@,
                replacement@,
            ),
        decreases len - i,
    {
        let ghost rest = data@.skip(i as int);
        let ghost before = out@;
        let b = data[i];
        if b == 0x0d && len - i >= 2 && data[i + 1] == 0x0a {
            extend_bytes(&mut out, replacement);
            proof {
                assert(rest.skip(2) =~= data@.skip(i + 2));
                assert(converted_newlines(rest, replacement@) == replacement@ + converted_newlines(
                    rest.skip(2),
                    replacement@,
                ));
                assert(before + (replacement@ + converted_newlines(rest.skip(2), replacement@))
                    =~= out@ + converted_newlines(rest.skip(2), replacement@));
            }
            i = i + 2;
        } else if b == 0x0d || b == 0x0a {
            extend_bytes(&mut out, replacement);
            proof {
                assert(rest.skip(1) =~= data@.skip(i + 1));
                assert(converted_newlines(rest, replacement@) == replacement@ + converted_newlines(
                    rest.skip(1),
                    replacement@,
                ));
                assert(before + (replacement@ + converted_newlines(rest.skip(1), replacement@))
                    =~= out@ + converted_newlines(rest.skip(1), replacement@));
            }
            i = i + 1;
        } else {
            out.push(b);
            proof {
                assert(rest.skip(1) =~= data@.skip(i + 1));
                assert(converted_newlines(rest, replacement@) == seq![b] + converted_newlines(
                    rest.skip(1),
                    replacement@,
                ));
                assert(before + (seq![b] + converted_newlines(rest.skip(1), replacement@))
                    =~= out@ + converted_newlines(rest.skip(1), replacement@));
            }
            i = i + 1;
        }
    }
    assert(data@.skip(len as int) =~= Seq::<u8>::empty());
    assert(out@ + Seq::<u8>::empty() =~= out@);
    out
}

/// Append all of `bytes`.
fn extend_bytes(out: &mut Vec<u8>, bytes: &[u8])
    ensures
        final(out)@ == old(out)@ + bytes@,
{
    let mut i: usize = 0;
    while i < bytes.len()
        invariant
            i <= bytes@.len(),
            out@ == old(out)@ + bytes@.take(i as int),
        decreases bytes.len() - i,
    {
        out.push(bytes[i]);
        proof {
            assert(bytes@.take(i + 1) =~= bytes@.take(i as int).push(bytes@[i as int]));
        }
        i = i + 1;
    }
    assert(bytes@.take(bytes@.len() as int) =~= bytes@);
}

/// Apply the configured newline conversion to outgoing (keystroke) bytes.
pub fn apply_newline_mode(data: &[u8], mode: NewlineMode) -> (out: Vec<u8>)
    ensures
        out@ == match newline_replacement(mode) {
            None => data@,
            Some(rep) => converted_newlines(data@, rep),
        },
{
    match mode {
        NewlineMode::PassThrough => {
            let mut out: Vec<u8> = Vec::new();
            extend_bytes(&mut out, data);
            assert(out@ =~= data@);
            out
        },
        NewlineMode::CrLf => {
            let rep: [u8; 2] = [0x0d, 0x0a];
            assert(rep@ == seq![0x0du8, 0x0au8]);
            convert_newlines(data, rep.as_slice())
        },
        NewlineMode::Lf => {
            let rep: [u8; 1] = [0x0a];
            assert(rep@ == seq![0x0au8]);
            convert_newlines(data, rep.as_slice())
        },
        NewlineMode::Cr => {
            let rep: [u8; 1] = [0x0d];
            assert(rep@ == seq![0x0du8]);
            convert_newlines(data, rep.as_slice())
        },
    }
}

/// Lowercase hexadecimal digit for a value below 16, as an ASCII byte.
pub open spec fn hex_digit_byte(v: int) -> u8 {
    if v < 10 {
        (0x30 + v) as u8
    } else {
        (0x61 + v - 10) as u8
    }
}

/// A byte as it appears in a hex dump: two lowercase hex digits and a space.
pub open spec fn hex_cell(b: u8) -> Seq<u8> {
    seq![hex_digit_byte((b / 16) as int), hex_digit_byte((b % 16) as int), 0x20u8]
}

/// Hex dump of the first `n` bytes of `data`: each byte as two lowercase hex
/// digits and a space, with a CRLF after every sixteenth byte and after the
/// last one.
pub open spec fn hex_dump_prefix(data: Seq<u8>, n: nat) -> Seq<u8>
    decreases n,
{
    if n == 0 {
        Seq::empty()
    } else {
        let i = n - 1;
        let line_end = if i % 16 == 15 || i + 1 == data.len() {
            seq![0x0du8, 0x0au8]
        } else {
            Seq::empty()
        };
        hex_dump_prefix(data, (n - 1) as nat) + hex_cell(data[i]) + line_end
    }
}

/// How incoming bytes are shown: as a hex dump in hex mode, unchanged
/// otherwise.
pub open spec fn formatted_incoming(data: Seq<u8>, hex_mode: bool) -> Seq<u8> {
    if hex_mode {
        hex_dump_prefix(data, data.len())
    } else {
        data
    }
}

fn hex_digit_exec(v: u8) -> (d: u8)
    requires
        v < 16,
    ensures
        d == hex_digit_byte(v as int),
{
    if v < 10 {
        0x30 + v
    } else {
        0x61 + v - 10
    }
}

/// Format incoming device bytes for display. In hex mode, bytes are
/// rendered as a 16-columns-per-row hex dump (plain ASCII text); otherwise
/// bytes pass through unchanged.
pub fn format_incoming(data: &[u8], hex_mode: bool) -> (out: Vec<u8>)
    ensures
        out@ == formatted_incoming(data@, hex_mode),
{
    let mut out: Vec<u8> = Vec::new();
    if !hex_mode {
        extend_bytes(&mut out, data);
        assert(out@ =~= data@);
        return out;
    }
    let len = data.len();
    let mut i: usize = 0;
    while i < len
        invariant
            len == data@.len(),
            i <= len,
            out@ == hex_dump_prefix(data@, i as nat),
        decreases len - i,
    {
        let b = data[i];
        out.push(hex_digit_exec(b / 16));
        out.push(hex_digit_exec(b % 16));
        out.push(0x20);
        if i % 16 == 15 || i + 1 == len {
            out.push(0x0d);
            out.push(0x0a);
        }
        proof {
            let prev = hex_dump_prefix(data@, i as nat);
            assert(hex_dump_prefix(data@, (i + 1) as nat) == prev + hex_cell(b) + (if i % 16 == 15
                || i + 1 == len {
                seq![0x0du8, 0x0au8]
            } else {
                Seq::<u8>::empty()
            }));
            assert(out@ =~= hex_dump_prefix(data@, (i + 1) as nat));
        }
        i = i + 1;
    }
    out
}


/// Whether the serial backend can open a device with `parity`: it has no
/// mark or space parity, and these are refused rather than downgraded.
pub fn check_parity(parity: Parity) -> (r: Result<(), CastermError>)
    ensures
        parity == Parity::Mark ==> (r matches Err(CastermError::Serial(m)) && m@
            == "mark parity is not supported by the serial backend"@),
        parity == Parity::Space ==> (r matches Err(CastermError::Serial(m)) && m@
            == "space parity is not supported by the serial backend"@),
        parity != Parity::Mark && parity != Parity::Space ==> r is Ok,
{
    proof {
        broadcast use vstd::string::group_string_axioms;
    }
    match parity {
        Parity::Mark => Err(CastermError::Serial("mark parity is not supported by the serial backend".to_string())),
        Parity::Space => Err(CastermError::Serial("space parity is not supported by the serial backend".to_string())),
        _ => Ok(()),
    }
}

/// The stop bits a device is opened with: the backend has no 1.5 stop
/// bits, which are collapsed onto 1.
pub fn backend_stop_bits(bits: StopBits) -> (r: StopBits)
    ensures
        r == if bits == StopBits::OneAndHalf {
            StopBits::One
        } else {
            bits
        },
{
    match bits {
        StopBits::OneAndHalf => StopBits::One,
        other => other,
    }
}


/// `data` as a newline mode sends it.
pub open spec fn with_newline_mode(data: Seq<u8>, mode: NewlineMode) -> Seq<u8> {
    match newline_replacement(mode) {
        None => data,
        Some(rep) => converted_newlines(data, rep),
    }
}

/// Converting to carriage returns leaves no line feed.
proof fn lemma_cr_conversion_has_no_lf(data: Seq<u8>)
    ensures
        !converted_newlines(data, seq![0x0du8]).contains(0x0au8),
    decreases data.len(),
{
    let r = seq![0x0du8];
    if data.len() > 0 {
        let rest = if data[0] == 0x0d && data.len() >= 2 && data[1] == 0x0a {
            data.skip(2)
        } else {
            data.skip(1)
        };
        lemma_cr_conversion_has_no_lf(rest);
        let y = converted_newlines(rest, r);
        let piece = if data[0] == 0x0d || data[0] == 0x0a {
            r
        } else {
            seq![data[0]]
        };
        assert(converted_newlines(data, r) == piece + y);
        if (piece + y).contains(0x0au8) {
            let j = choose|j: int| 0 <= j < (piece + y).len() && (piece + y)[j] == 0x0au8;
            if j >= piece.len() {
                assert(y[j - piece.len()] == 0x0au8);
                assert(y.contains(0x0au8));
            }
        }
    }
}

/// Converting again changes nothing: every line break of a converted text
/// is already the replacement, and nothing else is a line break.
proof fn lemma_conversion_idempotent(data: Seq<u8>, r: Seq<u8>)
    requires
        r == seq![0x0du8, 0x0au8] || r == seq![0x0au8] || r == seq![0x0du8],
    ensures
        converted_newlines(converted_newlines(data, r), r) == converted_newlines(data, r),
    decreases data.len(),
{
    if data.len() > 0 {
        let rest = if data[0] == 0x0d && data.len() >= 2 && data[1] == 0x0a {
            data.skip(2)
        } else {
            data.skip(1)
        };
        lemma_conversion_idempotent(rest, r);
        let y = converted_newlines(rest, r);
        if data[0] == 0x0d || data[0] == 0x0a {
            assert(converted_newlines(data, r) == r + y);
            let t = r + y;
            if r == seq![0x0du8, 0x0au8] {
                assert(t[0] == 0x0d && t[1] == 0x0a);
                assert(t.skip(2) =~= y);
            } else if r == seq![0x0au8] {
                assert(t[0] == 0x0a);
                assert(t.skip(1) =~= y);
            } else {
                lemma_cr_conversion_has_no_lf(rest);
                assert(t[0] == 0x0d);
                if t.len() >= 2 {
                    assert(t[1] == y[0]);
                    assert(y.contains(y[0]));
                }
                assert(t.skip(1) =~= y);
            }
            assert(converted_newlines(t, r) == r + converted_newlines(y, r));
        } else {
            let t = seq![data[0]] + y;
            assert(converted_newlines(data, r) == t);
            assert(t[0] == data[0]);
            assert(t.skip(1) =~= y);
            assert(converted_newlines(t, r) == seq![data[0]] + converted_newlines(y, r));
        }
    }
}

/// Sending data through a newline mode twice is sending it once: the
/// conversion leaves already converted line breaks as they are.
pub proof fn lemma_newline_mode_idempotent(data: Seq<u8>, mode: NewlineMode)
    ensures
        with_newline_mode(with_newline_mode(data, mode), mode) == with_newline_mode(data, mode),
{
    match newline_replacement(mode) {
        None => {},
        Some(r) => lemma_conversion_idempotent(data, r),
    }
}

} // verus!
