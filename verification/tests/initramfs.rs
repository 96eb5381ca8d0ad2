use evkrnl::initramfs::InitRamFs;

/// Packs files into the ramdisk wire format: a little-endian count, a
/// table of (name offset, name length, data length) triples, then the
/// packed names and contents.
fn pack(files: &[(&str, &[u8])]) -> Vec<u8> {
    let count = files.len();
    let mut blob = Vec::new();
    blob.extend_from_slice(&(count as u64).to_le_bytes());
    let mut offset = 8 + 24 * count;
    for (name, data) in files {
        blob.extend_from_slice(&(offset as u64).to_le_bytes());
        blob.extend_from_slice(&(name.len() as u64).to_le_bytes());
        blob.extend_from_slice(&(data.len() as u64).to_le_bytes());
        offset += name.len() + data.len();
    }
    for (name, data) in files {
        blob.extend_from_slice(name.as_bytes());
        blob.extend_from_slice(data);
    }
    blob
}

#[test]
fn ramdisk_with_two_files() {
    let blob = pack(&[("a", b"foo"), ("b", b"barz")]);
    let fs = InitRamFs::new(blob).expect("well-formed image");
    let mut iter = fs.iter();
    let (name, data) = iter.next().expect("first file");
    assert_eq!(name, "a");
    assert_eq!(data, b"foo");
    let (name, data) = iter.next().expect("second file");
    assert_eq!(name, "b");
    assert_eq!(data, b"barz");
    assert!(iter.next().is_none());
    assert_eq!(fs.open_file("b"), Some(&b"barz"[..]));
    assert_eq!(fs.open_file("c"), None);
}

#[test]
fn iterated_names_open_their_contents() {
    let blob = pack(&[("kernel.map", b"symbols"), ("motd", b"hello"), ("empty", b"")]);
    let fs = InitRamFs::new(blob).expect("well-formed image");
    let mut iter = fs.iter();
    let mut seen = 0;
    while let Some((name, data)) = iter.next() {
        assert_eq!(fs.open_file(name), Some(data));
        seen += 1;
    }
    assert_eq!(seen, 3);
}

#[test]
fn open_file_returns_first_match() {
    let blob = pack(&[("dup", b"first"), ("dup", b"second")]);
    let fs = InitRamFs::new(blob).expect("well-formed image");
    assert_eq!(fs.open_file("dup"), Some(&b"first"[..]));
}

#[test]
fn empty_image() {
    let blob = pack(&[]);
    let fs = InitRamFs::new(blob).expect("well-formed image");
    let mut iter = fs.iter();
    assert!(iter.next().is_none());
    assert_eq!(fs.open_file("anything"), None);
}

#[test]
fn malformed_images_are_refused() {
    // Too short for even the count.
    assert!(InitRamFs::new(vec![1, 2, 3]).is_none());
    // A count the table cannot fit.
    let mut blob = vec![0u8; 16];
    blob[0] = 200;
    assert!(InitRamFs::new(blob).is_none());
    // An entry reaching out of bounds.
    let mut blob = pack(&[("a", b"foo")]);
    let len = blob.len() as u64;
    blob[8..16].copy_from_slice(&(len * 2).to_le_bytes());
    assert!(InitRamFs::new(blob).is_none());
    // A name that is not UTF-8.
    let mut blob = pack(&[("a", b"foo")]);
    let name_pos = 8 + 24;
    blob[name_pos] = 0xff;
    assert!(InitRamFs::new(blob).is_none());
}
