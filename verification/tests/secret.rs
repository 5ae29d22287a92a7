use nowayprompt::secret::{
    last_char_start, plan_append, plan_delete, retry_after_failure, SecretError,
};

#[test]
fn append_plans_check_utf8_then_capacity() {
    assert_eq!(plan_append(0, 16, b"hello"), Ok((5, 5)));
    assert_eq!(plan_append(3, 16, "é𝕏".as_bytes()), Ok((9, 2)));
    assert_eq!(plan_append(0, 16, &[0x80]), Err(SecretError::InvalidUtf8));
    // Invalid UTF-8 is refused even when it would not fit.
    assert_eq!(plan_append(15, 16, &[0xff, 0xff]), Err(SecretError::InvalidUtf8));
    assert_eq!(plan_append(15, 16, b"ab"), Err(SecretError::Overflow));
    assert_eq!(plan_append(14, 16, b"ab"), Ok((16, 2)));
    assert_eq!(plan_append(usize::MAX, usize::MAX, b"a"), Err(SecretError::Overflow));
}

#[test]
fn delete_cuts_last_character() {
    assert_eq!(last_char_start(b"1234"), 3);
    assert_eq!(last_char_start("é".as_bytes()), 0);
    assert_eq!(last_char_start("a𝕏".as_bytes()), 1);
    assert_eq!(last_char_start("xé".as_bytes()), 1);
    // Continuation bytes only: everything goes.
    assert_eq!(last_char_start(&[0x80, 0x80]), 0);
}

#[test]
fn retry_policy_is_bounded() {
    assert_eq!(retry_after_failure(0, true), Some(1));
    assert_eq!(retry_after_failure(8, true), Some(9));
    assert_eq!(retry_after_failure(9, true), None);
    assert_eq!(retry_after_failure(0, false), None);
}

#[test]
fn secret_error_messages() {
    assert_eq!(SecretError::Overflow.message(), "secret buffer overflow");
    assert_eq!(
        SecretError::MmapFailed(-12).message(),
        "mmap failed with errno -12"
    );
    assert_eq!(
        SecretError::SetRlimitCoreFailed(1).message(),
        "setrlimit(RLIMIT_CORE, 0) failed with errno 1"
    );
    assert_eq!(
        SecretError::MunmapFailed(i32::MIN).message(),
        "munmap failed with errno -2147483648"
    );
    assert_eq!(
        SecretError::InvalidUtf8.message(),
        "invalid UTF-8 in append_slice"
    );
}

#[test]
fn delete_undoes_multi_byte_append() {
    // "ab" then 'é' (2 bytes) and U+1D54F (4 bytes), deleted one by one.
    let mut content = b"ab".to_vec();
    let mut count = 2usize;
    for ch in ['é', '\u{1D54F}'] {
        let mut buf = [0u8; 4];
        let e = ch.encode_utf8(&mut buf).as_bytes().to_vec();
        let (n, k) = plan_append(content.len(), 4096, &e).unwrap();
        assert_eq!(k, 1);
        let mut grown = content.clone();
        grown.extend_from_slice(&e);
        assert_eq!(grown.len(), n);
        assert_eq!(plan_delete(&grown, count + k), (content.len(), count));
        content = grown;
        count += k;
    }
    assert_eq!(plan_delete(&content, count), (4, 3));
    assert_eq!(plan_delete(b"", 0), (0, 0));
    assert_eq!(plan_delete(b"", 5), (0, 5));
}
