use patme::osc::{
    clamp_unit, datagram_params, is_finite, param_target, params_from_packet, parse_decimal_usize,
    Arg, Message, Packet, ParamTarget, PatMeParam, F32_ONE_BITS,
};
use rosc::{OscBundle, OscMessage, OscPacket, OscTime, OscType};

fn chars(s: &str) -> Vec<char> {
    s.chars().collect()
}

fn message(addr: &str, args: Vec<Arg>) -> Message {
    Message { addr: addr.to_string(), args }
}

#[test]
fn decimal_parsing_matches_std() {
    let cases = [
        "0", "7", "42", "007", "+5", "+", "-5", "-0", "", " 1", "1 ", "1a", "a1", "\u{663}",
        "18446744073709551615", "18446744073709551616", "99999999999999999999999", "+0",
        "4294967295", "4294967296",
    ];
    for case in cases {
        assert_eq!(parse_decimal_usize(&chars(case)), case.parse::<usize>().ok(), "input {:?}", case);
    }
}

#[test]
fn clamp_matches_f32_clamp() {
    let mut patterns: Vec<u32> = vec![
        0, 0x8000_0000, F32_ONE_BITS, F32_ONE_BITS + 1, F32_ONE_BITS - 1, 0x7f80_0000,
        0xff80_0000, 0x7fc0_0000, 0xffc0_0000, 0x7f80_0001, 0xff80_0001, 0x0000_0001,
        0x8000_0001, 0xbf80_0000, 0x7f7f_ffff, 0xff7f_ffff,
    ];
    let mut x: u32 = 12345;
    for _ in 0..200_000 {
        x = x.wrapping_mul(1_664_525).wrapping_add(1_013_904_223);
        patterns.push(x);
    }
    for bits in patterns {
        let expected = f32::from_bits(bits).clamp(0.0, 1.0).to_bits();
        assert_eq!(clamp_unit(bits), expected, "bits {:#x}", bits);
        assert_eq!(is_finite(bits), f32::from_bits(bits).is_finite(), "bits {:#x}", bits);
    }
}

#[test]
fn addresses_name_parameters() {
    assert_eq!(param_target("/avatar/parameters/PatMe/Intensity"), Some(ParamTarget::Intensity));
    assert_eq!(param_target("/avatar/parameters/PatMe/0"), Some(ParamTarget::Touch(0)));
    assert_eq!(param_target("/avatar/parameters/PatMe/3"), Some(ParamTarget::Touch(3)));
    assert_eq!(param_target("/avatar/parameters/PatMe/+4"), Some(ParamTarget::Touch(4)));
    assert_eq!(param_target("/avatar/parameters/PatMe/L"), Some(ParamTarget::Touch(0)));
    assert_eq!(param_target("/avatar/parameters/PatMe/R"), Some(ParamTarget::Touch(1)));
    assert_eq!(param_target("/avatar/parameters/haptic_0"), Some(ParamTarget::Touch(0)));
    assert_eq!(param_target("/avatar/parameters/haptic_12"), Some(ParamTarget::Touch(12)));
    assert_eq!(param_target("/avatar/parameters/PatMe/"), None);
    assert_eq!(param_target("/avatar/parameters/PatMe/intensity"), None);
    assert_eq!(param_target("/avatar/parameters/PatMe/-1"), None);
    assert_eq!(param_target("/avatar/parameters/PatMe/Left"), None);
    assert_eq!(param_target("/avatar/parameters/haptic_"), None);
    assert_eq!(param_target("/avatar/parameters/Other"), None);
    assert_eq!(param_target("/avatar/parameters/patme/1"), None);
    assert_eq!(param_target(""), None);
}

#[test]
fn messages_give_clamped_updates() {
    let half = 0.5f32.to_bits();
    assert_eq!(
        PatMeParam::try_from_message(&message("/avatar/parameters/PatMe/1", vec![Arg::Float(half)])),
        Some(PatMeParam::Touch(1, half))
    );
    assert_eq!(
        PatMeParam::try_from_message(&message("/avatar/parameters/PatMe/Intensity", vec![Arg::Float(2.5f32.to_bits())])),
        Some(PatMeParam::Intensity(1.0f32.to_bits()))
    );
    assert_eq!(
        PatMeParam::try_from_message(&message("/avatar/parameters/PatMe/0", vec![Arg::Float((-3.0f32).to_bits()), Arg::Other])),
        Some(PatMeParam::Touch(0, 0.0f32.to_bits()))
    );
    assert_eq!(
        PatMeParam::try_from_message(&message("/avatar/parameters/PatMe/0", vec![Arg::Float(f32::INFINITY.to_bits())])),
        Some(PatMeParam::Touch(0, 1.0f32.to_bits()))
    );
    assert_eq!(
        PatMeParam::try_from_message(&message("/avatar/parameters/PatMe/0", vec![Arg::Float(f32::NAN.to_bits())])),
        None
    );
    assert_eq!(
        PatMeParam::try_from_message(&message("/avatar/parameters/PatMe/0", vec![Arg::Other, Arg::Float(half)])),
        None
    );
    assert_eq!(PatMeParam::try_from_message(&message("/avatar/parameters/PatMe/0", vec![])), None);
    assert_eq!(
        PatMeParam::try_from_message(&message("/avatar/parameters/Other", vec![Arg::Float(half)])),
        None
    );
}

#[test]
fn bundles_are_read_in_order() {
    let quarter = 0.25f32.to_bits();
    let packet = Packet::Bundle(vec![
        Packet::Message(message("/avatar/parameters/PatMe/1", vec![Arg::Float(quarter)])),
        Packet::Bundle(vec![
            Packet::Message(message("/ignored", vec![Arg::Float(quarter)])),
            Packet::Message(message("/avatar/parameters/PatMe/Intensity", vec![Arg::Float(quarter)])),
        ]),
        Packet::Message(message("/avatar/parameters/PatMe/0", vec![Arg::Float(quarter)])),
    ]);
    assert_eq!(
        params_from_packet(&packet),
        vec![
            PatMeParam::Touch(1, quarter),
            PatMeParam::Intensity(quarter),
            PatMeParam::Touch(0, quarter),
        ]
    );
    assert_eq!(params_from_packet(&Packet::Bundle(vec![])), vec![]);
}

#[test]
fn datagrams_are_decoded_and_read() {
    let inner = OscPacket::Bundle(OscBundle {
        timetag: OscTime { seconds: 0, fractional: 1 },
        content: vec![OscPacket::Message(OscMessage {
            addr: "/avatar/parameters/PatMe/Intensity".to_string(),
            args: vec![OscType::Float(0.75)],
        })],
    });
    let packet = OscPacket::Bundle(OscBundle {
        timetag: OscTime { seconds: 0, fractional: 1 },
        content: vec![
            OscPacket::Message(OscMessage {
                addr: "/avatar/parameters/PatMe/1".to_string(),
                args: vec![OscType::Float(0.5)],
            }),
            OscPacket::Message(OscMessage {
                addr: "/avatar/parameters/PatMe/0".to_string(),
                args: vec![OscType::Int(1)],
            }),
            inner,
        ],
    });
    let bytes = rosc::encoder::encode(&packet).unwrap();
    let params = datagram_params(&bytes).unwrap();
    assert_eq!(
        params,
        vec![PatMeParam::Touch(1, 0.5f32.to_bits()), PatMeParam::Intensity(0.75f32.to_bits())]
    );
    assert!(datagram_params(&[1, 2, 3]).is_err());
    assert!(datagram_params(&[]).is_err());
}
