use webencoding::codec::by_name;
use webencoding::codec::EncodeError;
use webencoding::codec::Encoding;

fn check_codec(enc: Encoding, cps: &[u32], bytes: &[u8]) {
    let encoded = enc.encode(&cps.to_vec()).expect("encoding");
    assert_eq!(encoded, bytes.to_vec());
    let decoded = enc.decode(&bytes.to_vec());
    assert_eq!(decoded, cps.to_vec());
}

const H: u32 = 'H' as u32;
const EURO: u32 = '€' as u32;
const L: u32 = 'l' as u32;
const O_DIAERESIS: u32 = 'ö' as u32;
const REPLACEMENT: u32 = 0xFFFD;

#[test]
fn test_windows1252() {
    check_codec(
        Encoding::Windows1252,
        &[H, EURO, L, L, O_DIAERESIS],
        &[72, 128, 108, 108, 246],
    );
}

#[test]
fn test_invalid_windows1252() {
    let cps: Vec<u32> = vec!['今' as u32, '日' as u32, 'は' as u32];
    assert_eq!(
        Encoding::Windows1252.encode(&cps),
        Err(EncodeError::Unrepresentable)
    );
}

#[test]
fn test_utf8() {
    check_codec(
        Encoding::Utf8,
        &[H, EURO, L, L, O_DIAERESIS],
        &[72, 226, 130, 172, 108, 108, 195, 182],
    );
    check_codec(
        Encoding::Utf8,
        &['今' as u32, '日' as u32, 'は' as u32],
        &[228, 187, 138, 230, 151, 165, 227, 129, 175],
    );
    let decoded = Encoding::Utf8.decode(&vec![72, 226, 130, 255, 108, 108, 195, 182]);
    assert_eq!(
        decoded,
        vec![H, REPLACEMENT, REPLACEMENT, L, L, O_DIAERESIS]
    );
}

#[test]
fn test_by_name() {
    assert_eq!(by_name("utf-8"), Some(Encoding::Utf8));
    assert_eq!(by_name("windows-1252"), Some(Encoding::Windows1252));
    assert_eq!(by_name("latin-1"), None);
    assert_eq!(by_name(""), None);
    assert_eq!(by_name("UTF-8"), None);
}

#[test]
fn test_names() {
    assert_eq!(Encoding::Utf8.name(), "utf-8");
    assert_eq!(Encoding::Windows1252.name(), "windows-1252");
}

#[test]
fn test_round_trip_utf8() {
    let cps: Vec<u32> = vec![0, 0x41, 0x7F, 0x80, 0x7FF, 0x800, 0xD7FF, 0xE000, 0xFFFF, 0x10000, 0x10FFFF];
    let bytes = Encoding::Utf8.encode(&cps).expect("encoding");
    assert_eq!(Encoding::Utf8.decode(&bytes), cps);
}

#[test]
fn test_round_trip_windows1252() {
    let cps: Vec<u32> = vec![0, 0x41, 0x7F, 0x20AC, 0x152, 0xA0, 0xFF, 0xF6];
    let bytes = Encoding::Windows1252.encode(&cps).expect("encoding");
    assert_eq!(Encoding::Windows1252.decode(&bytes), cps);
}

#[test]
fn test_ascii_identity() {
    let bytes: Vec<u8> = (0u8..=0x7F).collect();
    let cps: Vec<u32> = (0u32..=0x7F).collect();
    assert_eq!(Encoding::Utf8.decode(&bytes), cps);
    assert_eq!(Encoding::Windows1252.decode(&bytes), cps);
    assert_eq!(Encoding::Utf8.encode(&cps).expect("encoding"), bytes);
    assert_eq!(Encoding::Windows1252.encode(&cps).expect("encoding"), bytes);
}

#[test]
fn test_empty_input() {
    assert_eq!(Encoding::Utf8.decode(&vec![]), Vec::<u32>::new());
    assert_eq!(Encoding::Windows1252.decode(&vec![]), Vec::<u32>::new());
    assert_eq!(Encoding::Utf8.encode(&vec![]), Ok(Vec::new()));
    assert_eq!(Encoding::Windows1252.encode(&vec![]), Ok(Vec::new()));
}
