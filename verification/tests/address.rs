use smart_home_backend::domain::address::SocketAddress;

#[test]
fn parse_reads_four_octets_and_a_port() {
    assert_eq!(
        SocketAddress::parse("127.0.0.1:8888"),
        Some(SocketAddress::V4 {
            a: 127,
            b: 0,
            c: 0,
            d: 1,
            port: 8888
        })
    );
    assert_eq!(
        SocketAddress::parse("255.255.255.255:65535"),
        Some(SocketAddress::V4 {
            a: 255,
            b: 255,
            c: 255,
            d: 255,
            port: 65535
        })
    );
    assert_eq!(
        SocketAddress::parse("0.0.0.0:0"),
        Some(SocketAddress::V4 {
            a: 0,
            b: 0,
            c: 0,
            d: 0,
            port: 0
        })
    );
    assert_eq!(
        SocketAddress::parse("1.2.3.4:080"),
        Some(SocketAddress::V4 {
            a: 1,
            b: 2,
            c: 3,
            d: 4,
            port: 80
        })
    );
}

#[test]
fn parse_refuses_what_is_no_address() {
    for text in [
        "",
        "127.0.0:8888",
        "127.0.0.1",
        "127.0.0.1:",
        "127.0.0.1:65536",
        "127.0.0.1:99999999999999999999",
        "256.0.0.1:80",
        "01.0.0.1:80",
        "00.0.0.1:80",
        "1.2.3.4.5:80",
        "1..3.4:80",
        ".1.2.3.4:80",
        "1.2.3.4:80 ",
        " 1.2.3.4:80",
        "1.2.3.4:8a",
        "1.2.3.4:-1",
        "1.2.3.4;80",
        "1,2.3.4:80",
        "localhost:80",
        "1.2.3.1000:80",
    ] {
        assert_eq!(SocketAddress::parse(text), None, "{}", text);
    }
}

#[test]
fn to_string_writes_plain_decimals() {
    let addr = SocketAddress::V4 {
        a: 192,
        b: 168,
        c: 0,
        d: 10,
        port: 8080,
    };
    assert_eq!(addr.to_string(), "192.168.0.10:8080");
    let addr = SocketAddress::V4 {
        a: 0,
        b: 0,
        c: 0,
        d: 0,
        port: 0,
    };
    assert_eq!(addr.to_string(), "0.0.0.0:0");
    let addr = SocketAddress::V4 {
        a: 255,
        b: 9,
        c: 99,
        d: 100,
        port: 65535,
    };
    assert_eq!(addr.to_string(), "255.9.99.100:65535");
}

#[test]
fn written_addresses_are_read_back() {
    for addr in [
        SocketAddress::V4 {
            a: 10,
            b: 20,
            c: 30,
            d: 40,
            port: 50,
        },
        SocketAddress::V4 {
            a: 1,
            b: 0,
            c: 255,
            d: 7,
            port: 10000,
        },
    ] {
        assert_eq!(SocketAddress::parse(&addr.to_string()), Some(addr));
    }
}

fn v6(groups: [u16; 8], port: u16, scope_id: u32) -> SocketAddress {
    SocketAddress::V6 {
        g0: groups[0],
        g1: groups[1],
        g2: groups[2],
        g3: groups[3],
        g4: groups[4],
        g5: groups[5],
        g6: groups[6],
        g7: groups[7],
        port,
        scope_id,
    }
}

#[test]
fn parse_reads_ipv6_in_brackets() {
    let cases = [
        ("[::1]:8888", v6([0, 0, 0, 0, 0, 0, 0, 1], 8888, 0)),
        ("[::]:0", v6([0; 8], 0, 0)),
        ("[1::]:1", v6([1, 0, 0, 0, 0, 0, 0, 0], 1, 0)),
        ("[::1:2]:3", v6([0, 0, 0, 0, 0, 0, 1, 2], 3, 0)),
        (
            "[2001:db8::1]:80",
            v6([0x2001, 0xdb8, 0, 0, 0, 0, 0, 1], 80, 0),
        ),
        ("[1:2:3:4:5:6:7:8]:9", v6([1, 2, 3, 4, 5, 6, 7, 8], 9, 0)),
        ("[1:2:3:4:5:6:7::]:9", v6([1, 2, 3, 4, 5, 6, 7, 0], 9, 0)),
        ("[::2:3:4:5:6:7:8]:9", v6([0, 2, 3, 4, 5, 6, 7, 8], 9, 0)),
        ("[1:2:3::6:7:8]:9", v6([1, 2, 3, 0, 0, 6, 7, 8], 9, 0)),
        (
            "[FE80::AbCd:0001]:065535",
            v6([0xfe80, 0, 0, 0, 0, 0, 0xabcd, 1], 65535, 0),
        ),
        (
            "[ffff:ffff:ffff:ffff:ffff:ffff:ffff:ffff]:1",
            v6([0xffff; 8], 1, 0),
        ),
        (
            "[::ffff:192.168.0.1]:443",
            v6([0, 0, 0, 0, 0, 0xffff, 0xc0a8, 0x0001], 443, 0),
        ),
        ("[::1.2.3.4]:5", v6([0, 0, 0, 0, 0, 0, 0x0102, 0x0304], 5, 0)),
        (
            "[1:2:3:4:5:6:77.77.88.88]:1",
            v6([1, 2, 3, 4, 5, 6, 0x4d4d, 0x5858], 1, 0),
        ),
        (
            "[64:ff9b::255.255.255.255]:1",
            v6([0x64, 0xff9b, 0, 0, 0, 0, 0xffff, 0xffff], 1, 0),
        ),
        ("[fe80::1%5]:22", v6([0xfe80, 0, 0, 0, 0, 0, 0, 1], 22, 5)),
        ("[::%4294967295]:1", v6([0; 8], 1, 4294967295)),
        ("[::1%007]:1", v6([0, 0, 0, 0, 0, 0, 0, 1], 1, 7)),
        ("[::1%0]:1", v6([0, 0, 0, 0, 0, 0, 0, 1], 1, 0)),
    ];
    for (text, expected) in cases {
        assert_eq!(SocketAddress::parse(text), Some(expected), "{}", text);
    }
}

#[test]
fn parse_refuses_what_is_no_ipv6_address() {
    for text in [
        "::1:80",
        "::1",
        "[::1]",
        "[::1]:",
        "[::1]80",
        "[::1]:65536",
        "[::1]:80 ",
        "[::1:80",
        "::1]:80",
        "[]:80",
        "[:]:80",
        "[:1]:80",
        "[1:]:80",
        "[:::]:80",
        "[1:::2]:80",
        "[1::2::3]:80",
        "[1:2:3:4:5:6:7]:80",
        "[1:2:3:4:5:6:7:8:9]:80",
        "[1:2:3:4:5:6:7:8::]:80",
        "[::1:2:3:4:5:6:7:8]:80",
        "[12345::]:80",
        "[::00001]:80",
        "[::g]:80",
        "[::1 ]:80",
        "[ ::1]:80",
        "[1.2.3.4::]:80",
        "[1.2.3.4]:80",
        "[::1.2.3]:80",
        "[::1.2.3.4.5]:80",
        "[::1.2.3.256]:80",
        "[::1.2.3.04]:80",
        "[::1.2.3.4:5]:80",
        "[1:2:3:4:5:6:7:1.2.3.4]:80",
        "[::1%]:80",
        "[::1%eth0]:80",
        "[::1%4294967296]:80",
        "[::1%1%2]:80",
        "[%1]:80",
        "[[::1]]:80",
    ] {
        assert_eq!(SocketAddress::parse(text), None, "{}", text);
    }
}

#[test]
fn to_string_writes_ipv6_in_its_short_form() {
    let cases = [
        (v6([0, 0, 0, 0, 0, 0, 0, 1], 8888, 0), "[::1]:8888"),
        (v6([0; 8], 0, 0), "[::]:0"),
        (v6([1, 0, 0, 0, 0, 0, 0, 0], 1, 0), "[1::]:1"),
        (v6([0x2001, 0xdb8, 0, 0, 0, 0, 0, 1], 80, 0), "[2001:db8::1]:80"),
        (v6([1, 2, 3, 4, 5, 6, 7, 8], 9, 0), "[1:2:3:4:5:6:7:8]:9"),
        (v6([1, 0, 2, 3, 4, 5, 6, 7], 9, 0), "[1:0:2:3:4:5:6:7]:9"),
        (v6([1, 0, 0, 2, 0, 0, 0, 3], 9, 0), "[1:0:0:2::3]:9"),
        (v6([1, 0, 0, 2, 0, 0, 3, 4], 9, 0), "[1::2:0:0:3:4]:9"),
        (v6([0, 0, 1, 0, 0, 0, 0, 0], 9, 0), "[0:0:1::]:9"),
        (v6([0, 0, 1, 2, 3, 4, 5, 6], 9, 0), "[::1:2:3:4:5:6]:9"),
        (v6([1, 2, 3, 4, 5, 6, 0, 0], 9, 0), "[1:2:3:4:5:6::]:9"),
        (v6([0, 1, 0, 1, 0, 1, 0, 1], 9, 0), "[0:1:0:1:0:1:0:1]:9"),
        (
            v6([0xfe80, 0, 0, 0, 0xabcd, 0xef, 0x1000, 0xf], 65535, 0),
            "[fe80::abcd:ef:1000:f]:65535",
        ),
        (
            v6([0xffff; 8], 1, 0),
            "[ffff:ffff:ffff:ffff:ffff:ffff:ffff:ffff]:1",
        ),
        (
            v6([0, 0, 0, 0, 0, 0xffff, 0xc0a8, 0x0001], 443, 0),
            "[::ffff:192.168.0.1]:443",
        ),
        (
            v6([0, 0, 0, 0, 0, 0xffff, 0, 0], 1, 0),
            "[::ffff:0.0.0.0]:1",
        ),
        (v6([0, 0, 0, 0, 0, 0, 0x0102, 0x0304], 5, 0), "[::102:304]:5"),
        (v6([0xfe80, 0, 0, 0, 0, 0, 0, 1], 22, 5), "[fe80::1%5]:22"),
        (v6([0; 8], 1, 4294967295), "[::%4294967295]:1"),
    ];
    for (addr, expected) in cases {
        assert_eq!(addr.to_string(), expected);
        assert_eq!(SocketAddress::parse(expected), Some(addr), "{}", expected);
    }
}
