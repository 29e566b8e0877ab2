use yobicash::data::YData;
use yobicash::digest::YDigest64;
use yobicash::errors::YHErrorKind;
use yobicash::network::message::data::YGetDataReq;
use yobicash::network::message::data::YGetDataRes;
use yobicash::network::message::data::YListDataReq;
use yobicash::network::message::data::YListDataRes;
use yobicash::network::message::error::YHErrorRes;
use yobicash::network::method::YMethod;
use yobicash::network::method::YRPCMethod;

fn digest(seed: u8) -> YDigest64 {
    let mut bytes = [0u8; 64];
    for (i, b) in bytes.iter_mut().enumerate() {
        *b = seed.wrapping_add(i as u8);
    }
    YDigest64(bytes)
}

fn blob(bytes: &[u8]) -> YData {
    YData { bytes: bytes.to_vec() }
}

#[test]
fn method_codes_are_big_endian_words() {
    assert_eq!(YMethod::ListData.to_bytes(), vec![0, 0, 0, 1]);
    assert_eq!(YMethod::GetData.to_bytes(), vec![0, 0, 0, 2]);
    assert_eq!(YMethod::Unknown.to_bytes(), vec![0, 0, 0, 0]);
    assert_eq!(YMethod::from_u32(1), YMethod::ListData);
    assert_eq!(YMethod::from_u32(2), YMethod::GetData);
    assert_eq!(YMethod::from_u32(77), YMethod::Unknown);
    assert_eq!(YMethod::from_bytes(&[0, 0, 0, 2]), Ok(YMethod::GetData));
    assert_eq!(YMethod::from_bytes(&[0, 0, 2]), Err(YHErrorKind::InvalidLength));
    assert_eq!(YRPCMethod::GetData.to_bytes(), vec![0, 0, 0, 3]);
    assert_eq!(YRPCMethod::from_u32(1), YRPCMethod::ListPeers);
    assert_eq!(YRPCMethod::from_u32(9), YRPCMethod::Unknown);
}

#[test]
fn digest_needs_exactly_64_bytes() {
    let d = digest(3);
    assert_eq!(d.to_bytes().len(), 64);
    assert_eq!(YDigest64::from_bytes(&d.to_bytes()), Ok(d));
    assert_eq!(YDigest64::from_bytes(&[0u8; 63]), Err(YHErrorKind::InvalidLength));
    assert_eq!(YDigest64::from_bytes(&[0u8; 65]), Err(YHErrorKind::InvalidLength));
}

#[test]
fn list_data_req_encodes_method_then_id() {
    let req = YListDataReq::new(digest(1));
    assert_eq!(req.check(), Ok(()));
    let bytes = req.to_bytes().unwrap();
    assert_eq!(bytes.len(), 68);
    assert_eq!(&bytes[0..4], &[0, 0, 0, 1]);
    assert_eq!(&bytes[4..], &digest(1).0[..]);
}

#[test]
fn list_data_req_requires_exactly_108_bytes() {
    assert_eq!(YListDataReq::from_bytes(&[0u8; 107]), Err(YHErrorKind::InvalidLength));
    assert_eq!(YListDataReq::from_bytes(&[0u8; 109]), Err(YHErrorKind::InvalidLength));
    assert_eq!(YListDataReq::from_bytes(&[0u8; 68]), Err(YHErrorKind::InvalidLength));
    assert_eq!(YListDataReq::from_bytes(&[]), Err(YHErrorKind::InvalidLength));
}

#[test]
fn list_data_req_reads_fields_at_their_offsets() {
    let mut frame = vec![0xAAu8; 108];
    frame[28..32].copy_from_slice(&[0, 0, 0, 1]);
    frame[44..108].copy_from_slice(&digest(9).0);
    let req = YListDataReq::from_bytes(&frame).unwrap();
    assert_eq!(req.method, YMethod::ListData);
    assert_eq!(req.tx_id, digest(9));
    assert_eq!(req, YListDataReq::new(digest(9)));
}

#[test]
fn list_data_req_refuses_foreign_method_in_frame() {
    let mut frame = vec![0u8; 108];
    frame[28..32].copy_from_slice(&[0, 0, 0, 2]);
    assert_eq!(YListDataReq::from_bytes(&frame), Err(YHErrorKind::InvalidMethod));
    frame[28..32].copy_from_slice(&[1, 0, 0, 0]);
    assert_eq!(YListDataReq::from_bytes(&frame), Err(YHErrorKind::InvalidMethod));
}

#[test]
fn method_mismatch_fails_check_and_encoding() {
    let mut list_req = YListDataReq::new(digest(1));
    list_req.method = YMethod::GetData;
    assert_eq!(list_req.check(), Err(YHErrorKind::InvalidMethod));
    assert_eq!(list_req.to_bytes(), Err(YHErrorKind::InvalidMethod));

    let mut list_res = YListDataRes::new(&vec![blob(b"abc")]);
    list_res.method = YMethod::GetData;
    assert_eq!(list_res.check(), Err(YHErrorKind::InvalidMethod));
    assert_eq!(list_res.to_bytes(), Err(YHErrorKind::InvalidMethod));

    let mut get_req = YGetDataReq::new(digest(2));
    get_req.method = YMethod::ListData;
    assert_eq!(get_req.check(), Err(YHErrorKind::InvalidMethod));
    assert_eq!(get_req.to_bytes(), Err(YHErrorKind::InvalidMethod));

    let mut get_res = YGetDataRes::new(&blob(&[7u8; 100]));
    get_res.method = YMethod::Unknown;
    assert_eq!(get_res.check(), Err(YHErrorKind::InvalidMethod));
    assert_eq!(get_res.to_bytes(), Err(YHErrorKind::InvalidMethod));
}

#[test]
fn default_messages_do_not_pass_check() {
    assert_eq!(YListDataReq::default().check(), Err(YHErrorKind::InvalidMethod));
    assert_eq!(YListDataRes::default().check(), Err(YHErrorKind::InvalidMethod));
    assert_eq!(YGetDataReq::default().check(), Err(YHErrorKind::InvalidMethod));
    assert_eq!(YGetDataRes::default().check(), Err(YHErrorKind::InvalidMethod));
    assert_eq!(YHErrorRes::default().check(), Ok(()));
}

#[test]
fn list_data_res_exact_encoding() {
    let res = YListDataRes::new(&vec![blob(b"ab"), blob(b""), blob(b"xyz")]);
    assert_eq!(res.count, 3);
    assert_eq!(res.check(), Ok(()));
    let bytes = res.to_bytes().unwrap();
    assert_eq!(
        bytes,
        vec![
            0, 0, 0, 1, // method
            0, 0, 0, 3, // count
            0, 0, 0, 2, b'a', b'b', // first item
            0, 0, 0, 0, // second item, empty
            0, 0, 0, 3, b'x', b'y', b'z', // third item
        ]
    );
}

#[test]
fn list_data_res_roundtrip_keeps_items_and_order() {
    let items: Vec<YData> = (0u8..7).map(|i| blob(&vec![i; (i as usize) * 37])).collect();
    let res = YListDataRes::new(&items);
    let bytes = res.to_bytes().unwrap();
    let back = YListDataRes::from_bytes(&bytes).unwrap();
    assert_eq!(back.method, YMethod::ListData);
    assert_eq!(back.count, 7);
    assert_eq!(back.data.len(), 7);
    assert_eq!(back.data, items);
    assert_eq!(back, res);
}

#[test]
fn list_data_res_empty_roundtrip() {
    let res = YListDataRes::new(&vec![]);
    let bytes = res.to_bytes().unwrap();
    assert_eq!(bytes, vec![0, 0, 0, 1, 0, 0, 0, 0]);
    assert_eq!(YListDataRes::from_bytes(&bytes), Ok(res));
}

#[test]
fn list_data_res_minimum_length_is_8() {
    assert_eq!(YListDataRes::from_bytes(&[0, 0, 0, 1, 0, 0, 0]), Err(YHErrorKind::InvalidLength));
    assert_eq!(YListDataRes::from_bytes(&[]), Err(YHErrorKind::InvalidLength));
}

#[test]
fn list_data_res_truncated_final_size_fails() {
    let res = YListDataRes::new(&vec![blob(b"first"), blob(b"second")]);
    let mut bytes = res.to_bytes().unwrap();
    // the size word of the final item starts after header (8), first size (4) and first payload (5)
    let at = 8 + 4 + 5;
    assert_eq!(&bytes[at..at + 4], &[0, 0, 0, 6]);
    bytes[at + 3] = 5;
    assert_eq!(YListDataRes::from_bytes(&bytes), Err(YHErrorKind::InvalidLength));
}

#[test]
fn list_data_res_truncated_buffer_fails() {
    let res = YListDataRes::new(&vec![blob(b"first"), blob(b"second")]);
    let bytes = res.to_bytes().unwrap();
    for cut in 8..bytes.len() {
        assert_eq!(YListDataRes::from_bytes(&bytes[..cut]), Err(YHErrorKind::InvalidLength));
    }
}

#[test]
fn list_data_res_count_mismatch_fails() {
    let res = YListDataRes::new(&vec![blob(b"first"), blob(b"second")]);
    let bytes = res.to_bytes().unwrap();
    let mut more = bytes.clone();
    more[7] = 3;
    assert_eq!(YListDataRes::from_bytes(&more), Err(YHErrorKind::InvalidLength));
    let mut fewer = bytes.clone();
    fewer[7] = 1;
    assert_eq!(YListDataRes::from_bytes(&fewer), Err(YHErrorKind::InvalidLength));

    let mut wrong = YListDataRes::new(&vec![blob(b"first")]);
    wrong.count = 2;
    assert_eq!(wrong.check(), Err(YHErrorKind::InvalidLength));
    assert_eq!(wrong.to_bytes(), Err(YHErrorKind::InvalidLength));
}

#[test]
fn list_data_res_wrong_method_tag_fails_after_length() {
    let res = YListDataRes::new(&vec![blob(b"first")]);
    let mut bytes = res.to_bytes().unwrap();
    bytes[3] = 2;
    assert_eq!(YListDataRes::from_bytes(&bytes), Err(YHErrorKind::InvalidMethod));
    // a length fault is reported before the method is looked at
    bytes.push(0);
    assert_eq!(YListDataRes::from_bytes(&bytes), Err(YHErrorKind::InvalidLength));
}

#[test]
fn get_data_req_roundtrip_and_length() {
    let req = YGetDataReq::new(digest(5));
    let bytes = req.to_bytes().unwrap();
    assert_eq!(bytes.len(), 68);
    assert_eq!(&bytes[0..4], &[0, 0, 0, 2]);
    assert_eq!(&bytes[4..], &digest(5).0[..]);
    assert_eq!(YGetDataReq::from_bytes(&bytes), Ok(req));
    assert_eq!(YGetDataReq::from_bytes(&bytes[..67]), Err(YHErrorKind::InvalidLength));
    assert_eq!(YGetDataReq::from_bytes(&[0u8; 69]), Err(YHErrorKind::InvalidLength));
    assert_eq!(YGetDataReq::from_bytes(&[0u8; 108]), Err(YHErrorKind::InvalidLength));
    assert_eq!(YGetDataReq::from_bytes(&[0u8; 68]), Err(YHErrorKind::InvalidMethod));
}

#[test]
fn get_data_res_roundtrip_and_minimum_length() {
    let data = blob(&(0..100u8).collect::<Vec<u8>>());
    let res = YGetDataRes::new(&data);
    let bytes = res.to_bytes().unwrap();
    assert_eq!(bytes.len(), 104);
    assert_eq!(&bytes[0..4], &[0, 0, 0, 2]);
    assert_eq!(&bytes[4..], &data.bytes[..]);
    assert_eq!(YGetDataRes::from_bytes(&bytes), Ok(res));
    assert_eq!(YGetDataRes::from_bytes(&bytes[..103]), Err(YHErrorKind::InvalidLength));

    let short = YGetDataRes::new(&blob(&[1u8; 99]));
    let short_bytes = short.to_bytes().unwrap();
    assert_eq!(short_bytes.len(), 103);
    assert_eq!(YGetDataRes::from_bytes(&short_bytes), Err(YHErrorKind::InvalidLength));

    let mut foreign = bytes.clone();
    foreign[3] = 1;
    assert_eq!(YGetDataRes::from_bytes(&foreign), Err(YHErrorKind::InvalidMethod));
}

#[test]
fn error_res_text_bound() {
    let ok = YHErrorRes::new(YRPCMethod::GetData, "x".repeat(20));
    assert_eq!(ok.check(), Ok(()));
    let bytes = ok.to_bytes().unwrap();
    assert_eq!(bytes.len(), 28);
    assert_eq!(&bytes[0..8], &[0, 0, 0, 3, 0, 0, 0, 0]);
    assert_eq!(&bytes[8..], "x".repeat(20).as_bytes());

    let long = YHErrorRes::new(YRPCMethod::GetData, "x".repeat(21));
    assert_eq!(long.check(), Err(YHErrorKind::InvalidLength));
    assert_eq!(long.to_bytes(), Err(YHErrorKind::InvalidLength));

    // the bound counts bytes, not characters
    let wide = YHErrorRes::new(YRPCMethod::ListData, "é".repeat(11));
    assert_eq!(wide.check(), Err(YHErrorKind::InvalidLength));
    let fits = YHErrorRes::new(YRPCMethod::ListData, "é".repeat(10));
    assert_eq!(fits.check(), Ok(()));
}

#[test]
fn error_res_decode_bounds() {
    assert_eq!(YHErrorRes::from_bytes(&[0u8; 45]), Err(YHErrorKind::InvalidLength));
    assert_eq!(YHErrorRes::from_bytes(&[0u8; 7]), Err(YHErrorKind::InvalidLength));
    assert_eq!(YHErrorRes::from_bytes(&[]), Err(YHErrorKind::InvalidLength));
    let mut frame = vec![0u8; 44];
    frame[3] = 2;
    for b in frame[8..].iter_mut() {
        *b = b'm';
    }
    let res = YHErrorRes::from_bytes(&frame).unwrap();
    assert_eq!(res.method, YRPCMethod::ListData);
    assert_eq!(res.message, "m".repeat(36));
    let empty = YHErrorRes::from_bytes(&[0, 0, 0, 1, 9, 9, 9, 9]).unwrap();
    assert_eq!(empty, YHErrorRes::new(YRPCMethod::ListPeers, String::new()));
}

#[test]
fn error_res_roundtrip() {
    let res = YHErrorRes::new(YRPCMethod::ListPeers, "not found: né".to_string());
    let bytes = res.to_bytes().unwrap();
    assert_eq!(YHErrorRes::from_bytes(&bytes), Ok(res));
}

#[test]
fn error_res_lossy_text() {
    let frame = [0, 0, 0, 3, 0, 0, 0, 0, b'o', b'k', 0xFF, b'!'];
    let res = YHErrorRes::from_bytes(&frame).unwrap();
    assert_eq!(res.method, YRPCMethod::GetData);
    assert_eq!(res.message, "ok\u{FFFD}!");
}
