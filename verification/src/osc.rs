//! OSC input: which avatar parameters drive the haptics, and how a received datagram
//! turns into parameter updates.
//!
//! Single-precision values travel through the library as their IEEE-754 bit patterns
//! (`f32::to_bits`); the helpers here interpret those patterns where the input rules need it.
use vstd::prelude::*;
use crate::text::{chars_of, decimal, digit_char, range_is};

verus! {

/// Address prefix of the bridge's own avatar parameters.
pub const OSC_PATME_PREFIX: &'static str = "/avatar/parameters/PatMe/";
/// Address prefix of the numbered haptic parameters.
pub const OSC_HAPTIC_PREFIX: &'static str = "/avatar/parameters/haptic_";
/// Bit pattern of `1.0f32`.
pub const F32_ONE_BITS: u32 = 0x3f80_0000;

/// A parameter update for the bridge; values are `f32` bit patterns in `[0.0, 1.0]`.
///
/// The derived equality and debug output work on the bit patterns: `0.0` and `-0.0` differ,
/// and values print as integers.
#[derive(Clone, Copy, Debug, PartialEq, Eq, Structural)]
pub enum PatMeParam {
    /// The overall intensity scale.
    Intensity(u32),
    /// A touch strength for the haptic channel with the given index.
    Touch(usize, u32),
}

/// Which parameter an OSC address names.
#[derive(Clone, Copy, Debug, PartialEq, Eq, Structural)]
pub enum ParamTarget {
    Intensity,
    Touch(usize),
}

/// One OSC argument, as far as the bridge reads it.
#[derive(Clone, Copy, Debug, PartialEq, Eq, Structural)]
pub enum Arg {
    /// A 32-bit float, as its bit pattern.
    Float(u32),
    /// An argument of any other type.
    Other,
}

/// An OSC message: its address and its arguments.
#[derive(Debug)]
pub struct Message {
    pub addr: String,
    pub args: Vec<Arg>,
}

/// An OSC packet: a message, or a bundle of packets.
#[derive(Debug)]
pub enum Packet {
    Message(Message),
    Bundle(Vec<Packet>),
}

// ---------------------------------------------------------------- numbers

/// The value of an ASCII decimal digit.
pub open spec fn digit_value(c: char) -> nat {
    ((c as u32) - ('0' as u32)) as nat
}

/// Whether `c` is an ASCII decimal digit.
pub open spec fn is_digit(c: char) -> bool {
    '0' <= c && c <= '9'
}

/// The number that the decimal digits `s` spell (most significant first).
pub open spec fn digits_value(s: Seq<char>) -> nat
    decreases s.len(),
{
    if s.len() == 0 {
        0
    } else {
        digits_value(s.drop_last()) * 10 + digit_value(s.last())
    }
}

/// The digits of an unsigned decimal literal: the text after an optional leading `+`.
pub open spec fn unsigned_digits(s: Seq<char>) -> Seq<char> {
    if s.len() > 0 && s[0] == '+' {
        s.skip(1)
    } else {
        s
    }
}

/// What `str::parse::<usize>` gives for `s`: an optional `+`, then at least one ASCII digit
/// and nothing else, of a value that fits in `usize`.
pub open spec fn parse_usize(s: Seq<char>) -> Option<usize> {
    let d = unsigned_digits(s);
    if d.len() > 0 && (forall|i: int| 0 <= i < d.len() ==> is_digit(#[trigger] d[i]))
        && digits_value(d) <= usize::MAX {
        Some(digits_value(d) as usize)
    } else {
        None
    }
}

proof fn lemma_digits_value_monotone(s: Seq<char>, k: int)
    requires
        0 <= k <= s.len(),
    ensures
        digits_value(s.take(k)) <= digits_value(s),
    decreases s.len() - k,
{
    if k < s.len() {
        lemma_digits_value_monotone(s, k + 1);
        assert(s.take(k + 1).drop_last() == s.take(k));
    } else {
        assert(s.take(k) == s);
    }
}

/// Parses an unsigned decimal number as `str::parse::<usize>` does.
pub fn parse_decimal_usize(s: &[char]) -> (r: Option<usize>)
    ensures
        r == parse_usize(s@),
{
    let n = s.len();
    let start: usize = if n > 0 && s[0] == '+' { 1 } else { 0 };
    let ghost d = unsigned_digits(s@);
    assert(d == s@.subrange(start as int, n as int));
    if start == n {
        return None;
    }
    let mut acc: usize = 0;
    let mut i: usize = start;
    while i < n
        invariant
            start <= i <= n == s@.len(),
            start < n,
            d == s@.subrange(start as int, n as int),
            d == unsigned_digits(s@),
            forall|k: int| start <= k < i ==> is_digit(#[trigger] s@[k]),
            acc == digits_value(d.take(i - start)),
        decreases n - i,
    {
        let c = s[i];
        if !('0' <= c && c <= '9') {
            assert(!is_digit(d[i - start]));
            return None;
        }
        let digit: usize = ((c as u32) - ('0' as u32)) as usize;
        assert(d.take(i - start + 1).drop_last() == d.take(i - start));
        assert(d.take(i - start + 1).last() == c);
        let grown = acc.checked_mul(10);
        match grown {
            None => {
                proof {
                    lemma_digits_value_monotone(d, i - start + 1);
                }
                return None;
            },
            Some(g) => match g.checked_add(digit) {
                None => {
                    proof {
                        lemma_digits_value_monotone(d, i - start + 1);
                    }
                    return None;
                },
                Some(v) => {
                    acc = v;
                },
            },
        }
        i = i + 1;
    }
    assert(d.take(n - start) == d);
    assert forall|k: int| 0 <= k < d.len() implies is_digit(#[trigger] d[k]) by {
        assert(d[k] == s@[start + k]);
    }
    Some(acc)
}

// ---------------------------------------------------------------- f32 bit patterns

/// The magnitude bits of an `f32` bit pattern (everything but the sign bit).
pub open spec fn f32_magnitude(bits: u32) -> u32 {
    bits % 0x8000_0000
}

/// Bit pattern of positive infinity; magnitudes above it are NaNs.
pub const F32_INFINITY_BITS: u32 = 0x7f80_0000;

/// Whether the pattern encodes a NaN (all exponent bits set, mantissa not zero).
pub open spec fn f32_is_nan(bits: u32) -> bool {
    f32_magnitude(bits) > F32_INFINITY_BITS
}

/// Whether the pattern encodes a finite value (not all exponent bits set).
pub open spec fn f32_is_finite(bits: u32) -> bool {
    f32_magnitude(bits) < F32_INFINITY_BITS
}

/// Whether the pattern encodes a value below zero: sign bit set, not NaN, not `-0.0`.
pub open spec fn f32_below_zero(bits: u32) -> bool {
    bits >= 0x8000_0000 && 0 < f32_magnitude(bits) <= F32_INFINITY_BITS
}

/// Whether the pattern encodes a value above one: sign bit clear, not NaN, and (as the
/// encoding orders non-negative values by their patterns) a pattern above that of `1.0`.
pub open spec fn f32_above_one(bits: u32) -> bool {
    bits < 0x8000_0000 && F32_ONE_BITS < bits <= F32_INFINITY_BITS
}

/// `f32::clamp(0.0, 1.0)` on bit patterns: values below zero become `0.0`, values above
/// one become `1.0`, and everything else, NaN and `-0.0` included, is returned unchanged.
pub open spec fn f32_clamp_unit(bits: u32) -> u32 {
    if f32_below_zero(bits) {
        0
    } else if f32_above_one(bits) {
        F32_ONE_BITS
    } else {
        bits
    }
}

/// Executable form of `f32_clamp_unit`.
pub fn clamp_unit(bits: u32) -> (r: u32)
    ensures
        r == f32_clamp_unit(bits),
{
    let magnitude = bits % 0x8000_0000;
    if bits >= 0x8000_0000 && 0 < magnitude && magnitude <= F32_INFINITY_BITS {
        0
    } else if bits < 0x8000_0000 && F32_ONE_BITS < bits && bits <= F32_INFINITY_BITS {
        F32_ONE_BITS
    } else {
        bits
    }
}

/// Executable form of `f32_is_finite`.
pub fn is_finite(bits: u32) -> (r: bool)
    ensures
        r == f32_is_finite(bits),
{
    bits % 0x8000_0000 < F32_INFINITY_BITS
}

// ---------------------------------------------------------------- addresses

/// Whether `s` begins with `prefix`.
pub open spec fn has_prefix(s: Seq<char>, prefix: Seq<char>) -> bool {
    s.len() >= prefix.len() && s.take(prefix.len() as int) == prefix
}

/// The parameter that an OSC address names: under the bridge's own prefix, `Intensity`,
/// `L` (channel 0), `R` (channel 1) or a channel number; under the haptic prefix, a
/// channel number. Channel numbers are read as `str::parse::<usize>` reads them.
pub open spec fn address_target(addr: Seq<char>) -> Option<ParamTarget> {
    if has_prefix(addr, OSC_PATME_PREFIX@) {
        let name = addr.skip(OSC_PATME_PREFIX@.len() as int);
        if name == "Intensity"@ {
            Some(ParamTarget::Intensity)
        } else if name == "L"@ {
            Some(ParamTarget::Touch(0))
        } else if name == "R"@ {
            Some(ParamTarget::Touch(1))
        } else {
            match parse_usize(name) {
                Some(index) => Some(ParamTarget::Touch(index)),
                None => None,
            }
        }
    } else if has_prefix(addr, OSC_HAPTIC_PREFIX@) {
        match parse_usize(addr.skip(OSC_HAPTIC_PREFIX@.len() as int)) {
            Some(index) => Some(ParamTarget::Touch(index)),
            None => None,
        }
    } else {
        None
    }
}

/// The parameter that the OSC address `addr` names, if any.
pub fn param_target(addr: &str) -> (r: Option<ParamTarget>)
    ensures
        r == address_target(addr@),
{
    let a = chars_of(addr);
    let n = a.len();
    let patme = chars_of(OSC_PATME_PREFIX);
    let haptic = chars_of(OSC_HAPTIC_PREFIX);
    if patme.len() <= n && range_is(&a, 0, patme.len(), OSC_PATME_PREFIX) {
        assert(a@.subrange(0, patme@.len() as int) == addr@.take(patme@.len() as int));
        assert(a@.subrange(patme@.len() as int, n as int) == addr@.skip(patme@.len() as int));
        if range_is(&a, patme.len(), n, "Intensity") {
            return Some(ParamTarget::Intensity);
        }
        if range_is(&a, patme.len(), n, "L") {
            return Some(ParamTarget::Touch(0));
        }
        if range_is(&a, patme.len(), n, "R") {
            return Some(ParamTarget::Touch(1));
        }
        let name = chars_of(addr.substring_char(patme.len(), n));
        return match parse_decimal_usize(&name) {
            Some(index) => Some(ParamTarget::Touch(index)),
            None => None,
        };
    }
    assert(patme@.len() <= n ==> a@.subrange(0, patme@.len() as int) == addr@.take(patme@.len() as int));
    if haptic.len() <= n && range_is(&a, 0, haptic.len(), OSC_HAPTIC_PREFIX) {
        assert(a@.subrange(0, haptic@.len() as int) == addr@.take(haptic@.len() as int));
        let number = chars_of(addr.substring_char(haptic.len(), n));
        return match parse_decimal_usize(&number) {
            Some(index) => Some(ParamTarget::Touch(index)),
            None => None,
        };
    }
    assert(haptic@.len() <= n ==> a@.subrange(0, haptic@.len() as int) == addr@.take(haptic@.len() as int));
    None
}

// ---------------------------------------------------------------- messages and packets

/// The parameter update that a message carries: its first argument must be a float,
/// which is clamped to `[0.0, 1.0]` and must then be finite (not NaN), and its address
/// must name a parameter.
pub open spec fn message_param(addr: Seq<char>, args: Seq<Arg>) -> Option<PatMeParam> {
    if args.len() == 0 {
        None
    } else {
        match args[0] {
            Arg::Float(bits) => {
                let value = f32_clamp_unit(bits);
                if !f32_is_finite(value) {
                    None
                } else {
                    match address_target(addr) {
                        Some(ParamTarget::Intensity) => Some(PatMeParam::Intensity(value)),
                        Some(ParamTarget::Touch(index)) => Some(PatMeParam::Touch(index, value)),
                        None => None,
                    }
                }
            },
            Arg::Other => None,
        }
    }
}

impl PatMeParam {
    /// The parameter update carried by `msg`, if it carries one.
    pub fn try_from_message(msg: &Message) -> (r: Option<PatMeParam>)
        ensures
            r == message_param(msg.addr@, msg.args@),
    {
        if msg.args.len() == 0 {
            return None;
        }
        let value = match msg.args[0] {
            Arg::Float(bits) => clamp_unit(bits),
            Arg::Other => return None,
        };
        if !is_finite(value) {
            return None;
        }
        match param_target(msg.addr.as_str()) {
            Some(ParamTarget::Intensity) => Some(PatMeParam::Intensity(value)),
            Some(ParamTarget::Touch(index)) => Some(PatMeParam::Touch(index, value)),
            None => None,
        }
    }
}

/// The parameter updates of a packet, in order: a message gives its update (if any), a
/// bundle gives those of its elements one after another.
pub open spec fn packet_params(p: Packet) -> Seq<PatMeParam>
    decreases p,
{
    match p {
        Packet::Message(m) => match message_param(m.addr@, m.args@) {
            Some(x) => seq![x],
            None => Seq::empty(),
        },
        Packet::Bundle(content) => packets_params(content@),
    }
}

/// The parameter updates of a sequence of packets, in order.
pub open spec fn packets_params(s: Seq<Packet>) -> Seq<PatMeParam>
    decreases s,
{
    if s.len() == 0 {
        Seq::empty()
    } else {
        packets_params(s.subrange(0, s.len() - 1)) + packet_params(s[s.len() - 1])
    }
}

fn collect_params(p: &Packet, out: &mut Vec<PatMeParam>)
    ensures
        final(out)@ == old(out)@ + packet_params(*p),
    decreases p,
{
    match p {
        Packet::Message(m) => {
            match PatMeParam::try_from_message(m) {
                Some(x) => {
                    out.push(x);
                },
                None => {
                    assert(old(out)@ + Seq::<PatMeParam>::empty() == old(out)@);
                },
            }
        },
        Packet::Bundle(content) => {
            let mut i: usize = 0;
            assert(content@.subrange(0, 0) == Seq::<Packet>::empty());
            assert(old(out)@ + Seq::<PatMeParam>::empty() == old(out)@);
            while i < content.len()
                invariant
                    0 <= i <= content@.len(),
                    *p == Packet::Bundle(*content),
                    out@ == old(out)@ + packets_params(content@.subrange(0, i as int)),
                decreases content@.len() - i,
            {
                proof {
                    let v: Vec<Packet> = (*p)->Bundle_0;
                    assert(decreases_to!(*p => (*p)->Bundle_0));
                    assert(decreases_to!(v => v@));
                    assert(decreases_to!(v@ => v@[i as int]));
                    assert(decreases_to!(*p => content@[i as int]));
                }
                collect_params(&content[i], out);
                assert(content@.subrange(0, i + 1).subrange(0, i as int) == content@.subrange(0, i as int));
                i = i + 1;
            }
            assert(content@.subrange(0, content@.len() as int) == content@);
        },
    }
}

/// The parameter updates carried by `packet`, in order.
pub fn params_from_packet(packet: &Packet) -> (r: Vec<PatMeParam>)
    ensures
        r@ == packet_params(*packet),
{
    let mut out: Vec<PatMeParam> = Vec::new();
    collect_params(packet, &mut out);
    assert(Seq::<PatMeParam>::empty() + packet_params(*packet) == packet_params(*packet));
    out
}

#[verifier::external_type_specification]
#[verifier::external_body]
pub struct ExOscError(rosc::OscError);

#[verifier::external_type_specification]
#[verifier::external_body]
pub struct ExRoscPacket(rosc::OscPacket);

#[verifier::external_type_specification]
#[verifier::external_body]
pub struct ExRoscType(rosc::OscType);

/// The packet that `rosc::decoder::decode_udp` decodes from a datagram (in this library's
/// form), or `None` where it reports an error.
pub uninterp spec fn osc_decode(datagram: Seq<u8>) -> Option<Packet>;

/// Calls `rosc::decoder::decode_udp` and hands back the decoded packet in this library's
/// form. Claimed: the outcome is a function of the datagram alone, named `osc_decode`.
/// Nothing is stated of which datagrams decode or of the error value.
#[verifier::external_body]
fn decode_udp(datagram: &[u8]) -> (r: Result<Packet, rosc::OscError>)
    ensures
        match r {
            Ok(p) => osc_decode(datagram@) == Some(p),
            Err(_) => osc_decode(datagram@) is None,
        },
{
    match rosc::decoder::decode_udp(datagram) {
        Ok((_, packet)) => Ok(packet_from_rosc(packet)),
        Err(e) => Err(e),
    }
}

/// Part of `decode_udp`'s result conversion: a `rosc` packet in this library's form, with
/// the same addresses, arguments (floats as their bit patterns) and bundle structure.
#[verifier::external_body]
fn packet_from_rosc(packet: rosc::OscPacket) -> Packet {
    match packet {
        rosc::OscPacket::Message(m) => Packet::Message(
            Message { addr: m.addr, args: m.args.into_iter().map(arg_from_rosc).collect() },
        ),
        rosc::OscPacket::Bundle(b) => Packet::Bundle(
            b.content.into_iter().map(packet_from_rosc).collect(),
        ),
    }
}

/// Part of `decode_udp`'s result conversion: a `rosc` argument in this library's form.
#[verifier::external_body]
fn arg_from_rosc(arg: rosc::OscType) -> Arg {
    match arg {
        rosc::OscType::Float(value) => Arg::Float(value.to_bits()),
        _ => Arg::Other,
    }
}

/// Why a received datagram gave no parameter updates.
#[derive(Debug)]
pub enum OscInputError {
    /// The datagram is not a well-formed OSC packet.
    Decode(rosc::OscError),
}

/// The parameter updates carried by the OSC datagram `datagram`, in order.
pub fn datagram_params(datagram: &[u8]) -> (r: Result<Vec<PatMeParam>, OscInputError>)
    ensures
        match r {
            Ok(params) => osc_decode(datagram@) matches Some(p) && params@ == packet_params(p),
            Err(_) => osc_decode(datagram@) is None,
        },
{
    match decode_udp(datagram) {
        Ok(packet) => Ok(params_from_packet(&packet)),
        Err(e) => Err(OscInputError::Decode(e)),
    }
}

/// The value carried by a parameter update.
pub open spec fn param_value(p: PatMeParam) -> u32 {
    match p {
        PatMeParam::Intensity(v) => v,
        PatMeParam::Touch(_, v) => v,
    }
}

/// Every value that reaches the bridge lies in `[0.0, 1.0]`: its pattern is that of `-0.0`
/// or a non-negative pattern no greater than that of `1.0`.
pub proof fn law_param_values_in_unit_range(addr: Seq<char>, args: Seq<Arg>)
    ensures
        message_param(addr, args) matches Some(p) ==> (param_value(p) <= F32_ONE_BITS
            || param_value(p) == 0x8000_0000),
{
}

} // verus!

verus! {

/// Values in `[0.0, 1.0]` (non-negative patterns up to that of `1.0`) are finite and pass
/// the clamp unchanged.
pub proof fn law_unit_values_unchanged(bits: u32)
    requires
        bits <= F32_ONE_BITS,
    ensures
        f32_clamp_unit(bits) == bits,
        f32_is_finite(bits),
{
}

/// A message whose first argument is a float and whose address names a parameter gives
/// exactly one update, for that parameter, carrying the clamped value; a value already in
/// `[0.0, 1.0]`, `0.0` (a released contact) included, is carried as it came. A bare
/// message is read on its own, not only inside a bundle.
pub proof fn law_message_gives_its_update(m: Message, bits: u32, target: ParamTarget)
    requires
        m.args@.len() > 0,
        m.args@[0] == Arg::Float(bits),
        address_target(m.addr@) == Some(target),
        f32_is_finite(f32_clamp_unit(bits)),
    ensures
        message_param(m.addr@, m.args@) == Some(
            match target {
                ParamTarget::Intensity => PatMeParam::Intensity(f32_clamp_unit(bits)),
                ParamTarget::Touch(index) => PatMeParam::Touch(index, f32_clamp_unit(bits)),
            },
        ),
        packet_params(Packet::Message(m)) == seq![
            match target {
                ParamTarget::Intensity => PatMeParam::Intensity(f32_clamp_unit(bits)),
                ParamTarget::Touch(index) => PatMeParam::Touch(index, f32_clamp_unit(bits)),
            },
        ],
        bits <= F32_ONE_BITS ==> packet_params(Packet::Message(m)) == seq![
            match target {
                ParamTarget::Intensity => PatMeParam::Intensity(bits),
                ParamTarget::Touch(index) => PatMeParam::Touch(index, bits),
            },
        ],
{
}

/// A bare message gives the same updates as a bundle that holds only that message.
pub proof fn law_bare_message_as_bundle(m: Message, content: Vec<Packet>)
    requires
        content@ == seq![Packet::Message(m)],
    ensures
        packet_params(Packet::Message(m)) == packet_params(Packet::Bundle(content)),
{
    assert(content@.subrange(0, 0) == Seq::<Packet>::empty());
    assert(content@[0] == Packet::Message(m));
    assert(packets_params(Seq::<Packet>::empty()) == Seq::<PatMeParam>::empty());
    assert(packets_params(content@) == Seq::<PatMeParam>::empty() + packet_params(Packet::Message(m)));
    assert(Seq::<PatMeParam>::empty() + packet_params(Packet::Message(m)) == packet_params(Packet::Message(m)));
}

proof fn lemma_digit_char(d: nat)
    requires
        d < 10,
    ensures
        is_digit(digit_char(d)),
        digit_value(digit_char(d)) == d,
{
}

proof fn lemma_decimal_digits(n: nat)
    ensures
        decimal(n).len() > 0,
        forall|i: int| 0 <= i < decimal(n).len() ==> is_digit(#[trigger] decimal(n)[i]),
        digits_value(decimal(n)) == n,
    decreases n,
{
    lemma_digit_char(n % 10);
    if n >= 10 {
        lemma_decimal_digits(n / 10);
        let d = decimal(n / 10);
        assert(decimal(n).drop_last() == d);
        assert(decimal(n).last() == digit_char(n % 10));
        assert(digits_value(decimal(n)) == digits_value(d) * 10 + digit_value(digit_char(n % 10)));
    } else {
        let s = decimal(n);
        assert(s == seq![digit_char(n)]);
        assert(s.drop_last() == Seq::<char>::empty());
        assert(digits_value(Seq::<char>::empty()) == 0);
    }
}

/// Every channel number written in decimal after the bridge's prefix (or the haptic
/// prefix) addresses that channel.
pub proof fn law_channel_addresses(index: usize)
    ensures
        address_target(OSC_PATME_PREFIX@ + decimal(index as nat)) == Some(ParamTarget::Touch(index)),
        address_target(OSC_HAPTIC_PREFIX@ + decimal(index as nat)) == Some(ParamTarget::Touch(index)),
{
    reveal_strlit("Intensity");
    reveal_strlit("L");
    reveal_strlit("R");
    reveal_strlit("/avatar/parameters/PatMe/");
    reveal_strlit("/avatar/parameters/haptic_");
    let d = decimal(index as nat);
    lemma_decimal_digits(index as nat);
    let p = OSC_PATME_PREFIX@;
    let h = OSC_HAPTIC_PREFIX@;
    assert((p + d).take(p.len() as int) =~= p);
    assert((p + d).skip(p.len() as int) =~= d);
    assert(!has_prefix(h + d, p)) by {
        if has_prefix(h + d, p) {
            assert((h + d)[19] == (h + d).take(p.len() as int)[19]);
        }
    }
    assert((h + d).take(h.len() as int) =~= h);
    assert((h + d).skip(h.len() as int) =~= d);
    assert(is_digit(d[0]));
    assert(d != "Intensity"@ && d != "L"@ && d != "R"@) by {
        if d == "Intensity"@ || d == "L"@ || d == "R"@ {
            assert(!is_digit(d[0]));
        }
    }
    assert(unsigned_digits(d) == d);
}

} // verus!
