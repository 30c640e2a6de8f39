use asset_registry::asset::{Asset, AssetInput};
use asset_registry::codec::{decode, encode, record_fits};
use asset_registry::principal::Principal;

fn sample() -> Asset {
    Asset {
        id: 0x0102030405060708,
        name: "ab".to_string(),
        description: "".to_string(),
        owner: Principal::from_slice(&[9, 8, 7]).unwrap(),
        file_hash: "h".to_string(),
        file_url: "u".to_string(),
        file_type: "t".to_string(),
        file_size: 1,
        price: 258,
        is_for_sale: true,
        created_at: 3,
        updated_at: 4,
        category: "c".to_string(),
        tags: vec!["x".to_string()],
        preview_image_url: None,
    }
}

fn number(value: u64) -> Vec<u8> {
    value.to_le_bytes().to_vec()
}

fn text(value: &str) -> Vec<u8> {
    let mut out = number(value.len() as u64);
    out.extend_from_slice(value.as_bytes());
    out
}

#[test]
fn record_is_laid_out_as_documented() {
    let mut expected = Vec::new();
    expected.extend(number(0x0102030405060708));
    expected.push(3);
    expected.extend([9, 8, 7]);
    expected.extend([0u8; 26]);
    expected.extend(number(1));
    expected.extend(number(258));
    expected.push(1);
    expected.push(0);
    expected.extend(number(3));
    expected.extend(number(4));
    expected.extend(number(1));
    assert_eq!(expected.len(), 80);
    for item in ["ab", "", "h", "u", "t", "c", "x"] {
        expected.extend(text(item));
    }
    let bytes = encode(&sample());
    assert_eq!(bytes, expected);
    assert_eq!(&bytes[0..8], &[8, 7, 6, 5, 4, 3, 2, 1]);
    assert_eq!(bytes.len(), 80 + 7 * 8 + 7);
}

#[test]
fn record_is_read_back() {
    let asset = sample();
    assert_eq!(decode(&encode(&asset)), Some(asset));
}

#[test]
fn record_with_preview_and_many_tags_is_read_back() {
    let mut asset = sample();
    asset.preview_image_url = Some("https://example.org/p.png".to_string());
    asset.tags = vec!["one".to_string(), "".to_string(), "three".to_string(), "four".to_string()];
    asset.is_for_sale = false;
    asset.owner = Principal::from_slice(&[5; 29]).unwrap();
    assert_eq!(decode(&encode(&asset)), Some(asset));
}

#[test]
fn record_without_tags_is_read_back() {
    let mut asset = sample();
    asset.tags = vec![];
    asset.owner = Principal::from_slice(&[]).unwrap();
    let bytes = encode(&asset);
    assert_eq!(bytes.len(), 80 + 6 * 8 + 6);
    assert_eq!(decode(&bytes), Some(asset));
}

#[test]
fn record_with_texts_beyond_ascii_is_read_back() {
    let mut asset = sample();
    asset.name = "Straße 雪 🚀".to_string();
    asset.tags = vec!["ÀÉÎ".to_string(), "çñ".to_string()];
    asset.preview_image_url = Some("π".to_string());
    let bytes = encode(&asset);
    assert_eq!(decode(&bytes), Some(asset));
}

#[test]
fn update_does_not_change_the_size_of_a_record() {
    let asset = sample();
    let mut changed = sample();
    changed.price = u64::MAX;
    changed.is_for_sale = false;
    changed.updated_at = 77;
    changed.owner = Principal::from_slice(&[1; 29]).unwrap();
    assert_eq!(encode(&asset).len(), encode(&changed).len());
}

#[test]
fn bytes_that_are_no_record_are_refused() {
    let bytes = encode(&sample());
    assert_eq!(decode(&[]), None);
    assert_eq!(decode(&bytes[..79]), None);
    assert_eq!(decode(&bytes[..bytes.len() - 1]), None);
    let mut longer = bytes.clone();
    longer.push(0);
    assert_eq!(decode(&longer), None);
    let mut long_owner = bytes.clone();
    long_owner[8] = 30;
    assert_eq!(decode(&long_owner), None);
    let mut padding = bytes.clone();
    padding[37] = 1;
    assert_eq!(decode(&padding), None);
    let mut flag = bytes.clone();
    flag[54] = 2;
    assert_eq!(decode(&flag), None);
    let mut preview = bytes.clone();
    preview[55] = 1;
    assert_eq!(decode(&preview), None);
    let mut tags = bytes.clone();
    tags[72] = 2;
    assert_eq!(decode(&tags), None);
    let mut many = bytes.clone();
    for at in 72..80 {
        many[at] = 0xff;
    }
    assert_eq!(decode(&many), None);
    let mut text_length = bytes.clone();
    text_length[80] = 200;
    assert_eq!(decode(&text_length), None);
}

#[test]
fn text_that_is_not_utf8_is_refused() {
    let mut bytes = encode(&sample());
    assert_eq!(bytes[88], b'a');
    bytes[88] = 0xff;
    assert_eq!(decode(&bytes), None);
    bytes[88] = 0xc3;
    bytes[89] = 0xa9;
    let read = decode(&bytes).unwrap();
    assert_eq!(read.name, "é");
}

#[test]
fn shorter_owner_is_read_with_its_own_length() {
    let mut bytes = encode(&sample());
    bytes[8] = 2;
    assert_eq!(decode(&bytes), None);
    bytes[11] = 0;
    let read = decode(&bytes).unwrap();
    assert_eq!(read.owner, Principal::from_slice(&[9, 8]).unwrap());
}

#[test]
fn ordinary_input_fits() {
    let input = AssetInput {
        name: "n".to_string(),
        description: "d".repeat(10_000),
        file_hash: "h".to_string(),
        file_url: "u".to_string(),
        file_type: "t".to_string(),
        file_size: 1,
        price: 1,
        category: "c".to_string(),
        tags: vec!["x".to_string(); 100],
        preview_image_url: Some("p".to_string()),
    };
    assert!(record_fits(&input));
}
