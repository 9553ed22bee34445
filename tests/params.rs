use vt_push_parser::event::ParamBuf;
use vt_push_parser::params::{NumericParam, ParamBufOwned};

#[test]
fn test_numeric_param_buf() {
    let param_buf = ParamBufOwned::new(&[b"1:2:3", b"4", b":"]);
    let numeric_param_buf = param_buf.numeric();
    let mut all = Vec::new();
    for i in 0..numeric_param_buf.len() {
        all.extend(numeric_param_buf.get(i).unwrap().values());
    }
    assert_eq!(all, vec![Some(1), Some(2), Some(3), Some(4), None, None]);

    assert_eq!(numeric_param_buf.first().unwrap().sole(), None);
    assert_eq!(numeric_param_buf.first().unwrap().first(), Some(1));
    assert_eq!(numeric_param_buf.get(1).unwrap().sole(), Some(4));
    assert_eq!(numeric_param_buf.get(1).unwrap().first(), Some(4));
    assert_eq!(numeric_param_buf.get(2).unwrap().sole(), None);
    assert_eq!(numeric_param_buf.get(2).unwrap().first(), None);

    let mut buf = [0, 0, 0, 0, 0, 0];
    let n = numeric_param_buf.try_write(&mut buf).unwrap();
    assert_eq!(&buf[..n], &[0, 4, 0]);
    let mut buf = [0, 0, 0, 0, 0, 0];
    let n = numeric_param_buf.get(0).unwrap().try_write(&mut buf).unwrap();
    assert_eq!(&buf[..n], &[1, 2, 3]);
}

#[test]
fn numeric_values_edges() {
    let p = NumericParam { param: b"65535:65536:+7::x".to_vec() };
    assert_eq!(p.values(), vec![Some(65535), None, Some(7), None, None]);
    assert_eq!(p.len(), 5);
    assert!(!p.is_empty());
    let mut small = [9u16; 2];
    assert_eq!(p.try_write(&mut small), Err(5));
    assert_eq!(small, [9, 9]);
    assert_eq!(NumericParam { param: Vec::new() }.values(), vec![None]);
    assert_eq!(NumericParam { param: b"12".to_vec() }.sole(), Some(12));
}

#[test]
fn param_buf_accessors() {
    let p = ParamBuf::new(&[b"200", b"", b"12:3"]);
    assert_eq!(p.len(), 3);
    assert_eq!(p.get(0), Some(b"200".as_slice()));
    assert_eq!(p.get(3), None);
    assert_eq!(p.try_parse(0), Some(200));
    assert_eq!(p.try_parse(1), None);
    assert_eq!(p.try_parse(2), None);
    assert_eq!(p.byte_len(), 9);
    assert_eq!(p.to_owned(), p);
    assert!(ParamBuf::empty().is_empty());
}
