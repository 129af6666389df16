use zdns::address::{is_ipv4_address, is_ipv6_address};

// Expected answers follow the standard library's address parsers.
const V4_CASES: &[(&str, bool)] = &[
    ("1.2.3.4", true), ("0.0.0.0", true), ("255.255.255.255", true), ("192.168.1.1", true),
    ("256.1.1.1", false), ("1.2.3", false), ("1.2.3.4.5", false), ("01.2.3.4", false),
    ("1.2.3.04", false), ("1.2.3.0", true), ("1..2.3", false), ("", false), (".1.2.3", false),
    ("1.2.3.4.", false), ("a.b.c.d", false), ("1.2.3.-4", false), ("1234.1.1.1", false),
    ("1.2.3.4 ", false), (" 1.2.3.4", false), ("invalid_ip", false), ("10.0.0.255", true),
    ("00.1.1.1", false), ("1.2.3.\u{663}", false),
];

const V6_CASES: &[(&str, bool)] = &[
    ("::", true), ("::1", true), ("1::", true), ("1:2:3:4:5:6:7:8", true),
    ("1:2:3:4:5:6:7::", true), ("::2:3:4:5:6:7:8", true), ("1:2:3:4:5:6:7:8:9", false),
    ("1::2::3", false), (":::", false), ("1:::2", false), ("12345::", false),
    ("::ffff:1.2.3.4", true), ("1:2:3:4:5:6:1.2.3.4", true), ("1:2:3:4:5:1.2.3.4", false),
    ("1:2:3:4:5:6:7:1.2.3.4", false), ("1:2:3:4:5:6::1.2.3.4", false),
    ("1:2:3:4:5::1.2.3.4", true), ("::1.2.3.4", true), ("1.2.3.4::", false), ("fe80::1", true),
    ("FE80::ABCD:ef01", true), ("g::", false), ("1:2:3:4:5:6:7", false),
    (":1:2:3:4:5:6:7", false), ("1:2:3:4:5:6:7:", false), ("::1.2.3", false),
    ("::1.2.3.4:5", false), ("0000:0000:0000:0000:0000:0000:0000:0000", true),
    ("00000::", false), ("2001:db8::8a2e:370:7334", true), ("::ffff:256.1.1.1", false),
    ("::ffff:01.1.1.1", false), ("", false), (":", false), ("1:2:3:4:5:6:7:8::", false),
    ("::1:2:3:4:5:6:7", true), ("1::1.2.3.4", true), ("a:b:c:d:e:f:1.2.3.4", true),
    ("1:2:3:4:5:6:7:8:1.2.3.4", false), ("::0:1.2.3.4", true),
];

#[test]
fn ipv4_cases() {
    for (case, expected) in V4_CASES {
        assert_eq!(is_ipv4_address(case), *expected, "case {:?}", case);
    }
}

#[test]
fn ipv6_cases() {
    for (case, expected) in V6_CASES {
        assert_eq!(is_ipv6_address(case), *expected, "case {:?}", case);
    }
}
