use quicssh_rs::auth::parse_client_hello_alpn;
use quicssh_rs::reader::Reader;

fn vec8(content: &[u8]) -> Vec<u8> {
    let mut out = vec![content.len() as u8];
    out.extend_from_slice(content);
    out
}

fn vec16(content: &[u8]) -> Vec<u8> {
    let mut out = (content.len() as u16).to_be_bytes().to_vec();
    out.extend_from_slice(content);
    out
}

fn extension(ty: u16, data: &[u8]) -> Vec<u8> {
    let mut out = ty.to_be_bytes().to_vec();
    out.extend(vec16(data));
    out
}

fn alpn(protocols: &[&[u8]]) -> Vec<u8> {
    let list: Vec<u8> = protocols.iter().flat_map(|p| vec8(p)).collect();
    extension(16, &vec16(&list))
}

fn body(extensions: &[u8]) -> Vec<u8> {
    let mut out = vec![3, 3];
    out.extend_from_slice(&[0xaa; 32]);
    out.extend(vec8(&[7; 32]));
    out.extend(vec16(&[0x13, 0x01, 0x13, 0x02]));
    out.extend(vec8(&[0]));
    out.extend(vec16(extensions));
    out
}

fn message(ty: u8, body: &[u8]) -> Vec<u8> {
    let mut out = vec![ty];
    out.extend_from_slice(&(body.len() as u32).to_be_bytes()[1..]);
    out.extend_from_slice(body);
    out
}

fn hello(extensions: &[u8]) -> Vec<u8> {
    message(1, &body(extensions))
}

#[test]
fn lists_protocols_in_order() {
    let mut extensions = extension(0, &[1, 2, 3]);
    extensions.extend(extension(43, &[]));
    extensions.extend(alpn(&[b"h3", b"", &[9; 32]]));
    extensions.extend(extension(51, &[4; 300]));
    assert_eq!(
        parse_client_hello_alpn(&hello(&extensions)),
        Some(vec![b"h3".to_vec(), vec![], vec![9; 32]])
    );
}

#[test]
fn empty_list_is_not_missing() {
    assert_eq!(parse_client_hello_alpn(&hello(&alpn(&[]))), Some(vec![]));
    assert_eq!(parse_client_hello_alpn(&hello(&extension(0, &[1]))), None);
    assert_eq!(parse_client_hello_alpn(&hello(&[])), None);
}

#[test]
fn only_client_hello_is_parsed() {
    let b = body(&alpn(&[b"h3"]));
    assert!(parse_client_hello_alpn(&message(1, &b)).is_some());
    assert_eq!(parse_client_hello_alpn(&message(2, &b)), None);
    assert_eq!(parse_client_hello_alpn(&[]), None);
}

#[test]
fn truncated_message_is_refused() {
    let whole = hello(&alpn(&[b"h3", b"ssh"]));
    for n in 0..whole.len() {
        assert_eq!(parse_client_hello_alpn(&whole[..n]), None);
    }
    let b = body(&alpn(&[b"h3", b"ssh"]));
    for n in 0..b.len() {
        assert_eq!(parse_client_hello_alpn(&message(1, &b[..n])), None);
    }
}

#[test]
fn first_alpn_extension_counts() {
    let mut extensions = alpn(&[b"a"]);
    extensions.extend(alpn(&[b"b"]));
    assert_eq!(parse_client_hello_alpn(&hello(&extensions)), Some(vec![b"a".to_vec()]));
}

#[test]
fn bytes_behind_the_message_are_not_read() {
    let mut m = hello(&alpn(&[b"a"]));
    m.extend_from_slice(&[0, 1, 2]);
    assert_eq!(parse_client_hello_alpn(&m), Some(vec![b"a".to_vec()]));
}

#[test]
fn bytes_behind_the_list_are_refused() {
    let mut data = vec16(&vec8(b"a"));
    assert!(parse_client_hello_alpn(&hello(&extension(16, &data))).is_some());
    data.push(0);
    assert_eq!(parse_client_hello_alpn(&hello(&extension(16, &data))), None);
}

#[test]
fn bytes_behind_the_extension_block_are_refused() {
    let mut b = body(&alpn(&[b"a"]));
    assert!(parse_client_hello_alpn(&message(1, &b)).is_some());
    b.push(0);
    assert_eq!(parse_client_hello_alpn(&message(1, &b)), None);
}

#[test]
fn truncated_extension_behind_alpn_is_refused() {
    let mut m = vec![1, 0, 0, 0x32, 3, 3];
    m.extend_from_slice(&[0; 32]);
    m.extend_from_slice(&[0, 0, 0, 0, 0, 0x0a]);
    m.extend_from_slice(&[0, 0x10, 0, 5, 0, 3, 2, 0x68, 0x32]);
    m.push(0);
    assert_eq!(parse_client_hello_alpn(&m), None);
    let rest: [&[u8]; 4] = [&[0xff], &[0, 1, 0], &[0, 1, 0, 2, 9], &[0, 16, 0]];
    for tail in rest {
        let mut extensions = alpn(&[b"h2"]);
        extensions.extend_from_slice(tail);
        assert_eq!(parse_client_hello_alpn(&hello(&extensions)), None);
    }
}

#[test]
fn malformed_extensions_are_refused() {
    let mut extensions = vec![0xff];
    assert_eq!(parse_client_hello_alpn(&hello(&extensions)), None);
    extensions = extension(0, &[1]);
    extensions.extend_from_slice(&[0, 16, 0, 9, 0]);
    assert_eq!(parse_client_hello_alpn(&hello(&extensions)), None);
    assert_eq!(parse_client_hello_alpn(&hello(&extension(16, &[]))), None);
    assert_eq!(parse_client_hello_alpn(&hello(&extension(16, &[0]))), None);
    assert_eq!(parse_client_hello_alpn(&hello(&extension(16, &[0, 3, 1, 2]))), None);
    assert_eq!(parse_client_hello_alpn(&hello(&extension(16, &vec16(&[2, 65])))), None);
}

#[test]
fn reader_takes_from_the_front() {
    let bytes = [1u8, 2, 3, 4, 5, 6, 7, 8];
    let mut r = Reader::new(&bytes);
    assert!(!r.is_empty());
    assert_eq!(r.u8(), Some(1));
    assert_eq!(r.u16(), Some(0x0203));
    assert_eq!(r.u24(), Some(0x0004_0506));
    assert_eq!(r.take(3), None);
    assert_eq!(r.u24(), None);
    assert_eq!(r.take(2), Some(&bytes[6..]));
    assert!(r.is_empty());
    assert_eq!(r.take(0), Some(&bytes[8..]));
    assert_eq!(r.u8(), None);
    assert_eq!(r.u16(), None);
}
