use cause::auth::{dummy_verify, get_dummy_hash, Keys, KeysError, WorkLog};
use cause::cost::{is_cost_bounded, memory_fits};
use yescrypt::{Params, PasswordHasher, PasswordVerifier, Yescrypt};

const STORED: &str =
    "a1b2c3d4:$y$j9T$xlKmMsoZxul/zvPXLC/Aj.$m0BFqZYiyDAF7bh/Tb3.CDTH5kgmBfBRhXbKAO0nco7\n";

fn dummy() -> String {
    "$y$j9T$xlKmMsoZxul/zvPXLC/Aj.$m0BFqZYiyDAF7bh/Tb3.CDTH5kgmBfBRhXbKAO0nco7".to_string()
}

fn hash_of(secret: &[u8]) -> String {
    Yescrypt::default().hash_password(secret).expect("hashing failed").to_string()
}

fn keys_with(key_id: &str, hash: &str) -> Keys {
    let mut keys = Keys::new(dummy());
    keys.add(key_id.to_string(), hash.to_string());
    keys
}

fn from_content(content: &str) -> Result<Keys, KeysError> {
    Keys::from_file("keys", &Ok(content.to_string()), dummy())
}

#[test]
fn tests_test_keys_verify_valid() {
    let yescrypt = Yescrypt::default();
    let hash_obj = yescrypt.hash_password(b"super53cr37").expect("hashing failed");
    let hash_str = hash_obj.to_string();
    let key_id = "testkey1";
    let keys = keys_with(key_id, &hash_str);
    assert!(yescrypt.verify_password(b"super53cr37", hash_str.as_str()).is_ok());
    assert!(keys.verify(&format!("{}.{}", key_id, "super53cr37"), &mut WorkLog::new()));
}

#[test]
fn tests_test_keys_verify_wrong_secret() {
    let key_id = "testkey2";
    let keys = keys_with(key_id, &hash_of(b"correct"));
    assert!(!keys.verify(&format!("{}.{}", key_id, "wrong"), &mut WorkLog::new()));
}

#[test]
fn tests_test_keys_verify_unknown_id() {
    let keys = keys_with("otherid", "$y$j9T$hash");
    assert!(!keys.verify("unknownid.secret", &mut WorkLog::new()));
}

#[test]
fn tests_test_keys_verify_no_dot() {
    let keys = keys_with("id", "$y$j9T$hash");
    assert!(!keys.verify("noseparator", &mut WorkLog::new()));
}

#[test]
fn tests_test_keys_from_file_rejects_malformed() {
    let path = "/tmp/cause_test_malformed_keys";
    let content =
        "$y$j9T$xlKmMsoZxul/zvPXLC/Aj.$m0BFqZYiyDAF7bh/Tb3.CDTH5kgmBfBRhXbKAO0nco7\n".to_string();
    let result = Keys::from_file(path, &Ok(content), dummy());
    assert!(result.is_err());
}

#[test]
fn tests_test_keys_from_file_accepts_keyid_format() {
    let path = "/tmp/cause_test_keyid_keys";
    let result = Keys::from_file(path, &Ok(STORED.to_string()), dummy());
    assert!(result.is_ok());
}

#[test]
fn auth_test_keys_verify_valid() {
    let yescrypt = Yescrypt::default();
    let hash_obj = yescrypt.hash_password(b"super53cr37").expect("hashing failed");
    let hash_str = hash_obj.to_string();
    let key_id = "testkey1";
    let keys = keys_with(key_id, &hash_str);
    assert!(yescrypt.verify_password(b"super53cr37", hash_str.as_str()).is_ok());
    assert!(keys.verify(&format!("{}.{}", key_id, "super53cr37"), &mut WorkLog::new()));
}

#[test]
fn auth_test_keys_verify_wrong_secret() {
    let key_id = "testkey2";
    let keys = keys_with(key_id, &hash_of(b"correct"));
    assert!(!keys.verify(&format!("{}.{}", key_id, "wrong"), &mut WorkLog::new()));
}

#[test]
fn auth_test_keys_verify_unknown_id() {
    let keys = keys_with("otherid", "$y$j9T$hash");
    assert!(!keys.verify("unknownid.secret", &mut WorkLog::new()));
}

#[test]
fn auth_test_keys_verify_no_dot() {
    let keys = keys_with("id", "$y$j9T$hash");
    assert!(!keys.verify("noseparator", &mut WorkLog::new()));
}

#[test]
fn auth_test_keys_from_file_rejects_malformed() {
    let result = from_content(
        "$y$j9T$xlKmMsoZxul/zvPXLC/Aj.$m0BFqZYiyDAF7bh/Tb3.CDTH5kgmBfBRhXbKAO0nco7\n",
    );
    assert!(result.is_err());
}

#[test]
fn auth_test_keys_from_file_accepts_keyid_format() {
    let result = from_content(STORED);
    assert!(result.is_ok());
}

#[test]
fn test_keys_from_file_rejects_invalid_hash() {
    let result = from_content("a1b2c3d4:not-a-valid-hash\n");
    assert!(result.is_err());
}

#[test]
fn test_keys_from_file_rejects_corrupted_yescrypt_hash() {
    let result = from_content("a1b2c3d4:$pbkdf2$invalid\n");
    assert!(result.is_err());
}

#[test]
fn test_keys_from_file_accepts_valid_hash() {
    let result = from_content(&format!("testkey:{}\n", hash_of(b"testpass")));
    assert!(result.is_ok());
    let keys = result.unwrap();
    assert!(keys.verify("testkey.testpass", &mut WorkLog::new()));
}

#[test]
fn keys_file_keeps_the_order_and_skips_blank_lines() {
    let keys = from_content("\n  a:$y$one  \r\n\t\nb:$y$two:three\na:$y$four").unwrap();
    let entries: Vec<(&str, &str)> =
        keys.entries.iter().map(|e| (e.key_id.as_str(), e.hash.as_str())).collect();
    assert_eq!(entries, vec![("a", "$y$one"), ("b", "$y$two:three"), ("a", "$y$four")]);
    assert_eq!(keys.dummy_hash, dummy());
}

#[test]
fn empty_keys_file_holds_no_keys() {
    assert_eq!(from_content("").unwrap().entries.len(), 0);
    assert_eq!(from_content("\n\n \n").unwrap().entries.len(), 0);
}

#[test]
fn unreadable_keys_file_is_reported() {
    let error = Keys::from_file("some/keys", &Err("no such file".to_string()), dummy()).unwrap_err();
    assert!(matches!(&error, KeysError::Read { path, source } if path == "some/keys" && source == "no such file"));
    assert_eq!(error.message(), "failed to read keys file some/keys: no such file");
}

#[test]
fn line_without_colon_is_reported() {
    let error = Keys::from_file("k", &Ok("a:$y$x\n  nothing here \n".to_string()), dummy()).unwrap_err();
    assert!(matches!(&error, KeysError::MalformedLine { path, line } if path == "k" && line == "nothing here"));
    assert_eq!(error.message(), "malformed line in k (no ':'): nothing here");
}

#[test]
fn invalid_hash_is_reported_with_its_line() {
    let error = Keys::from_file("k", &Ok("a:$y$x\n\n b:$z$y\nc:d".to_string()), dummy()).unwrap_err();
    match &error {
        KeysError::InvalidHash { path, line, line_num, reason } => {
            assert_eq!(path, "k");
            assert_eq!(line, "b:$z$y");
            assert_eq!(*line_num, 3);
            assert_eq!(reason, "not a valid yescrypt PHC string");
        }
        other => panic!("{:?}", other),
    }
    assert_eq!(error.message(), "invalid hash in k line 3: not a valid yescrypt PHC string");
}

#[test]
fn hash_must_begin_with_the_yescrypt_id() {
    assert!(from_content("a:$y$").is_ok());
    assert!(from_content("a:$y").is_err());
    assert!(from_content("a:x$y$z").is_err());
    assert!(from_content("a:").is_err());
    assert!(from_content(":$y$z").is_ok());
}

#[test]
fn several_hashes_may_stand_under_one_id() {
    let mut keys = keys_with("id", &hash_of(b"first"));
    keys.add("id".to_string(), hash_of(b"second"));
    assert!(keys.verify("id.first", &mut WorkLog::new()));
    assert!(keys.verify("id.second", &mut WorkLog::new()));
    assert!(!keys.verify("id.third", &mut WorkLog::new()));
    assert!(!keys.verify("other.first", &mut WorkLog::new()));
}

#[test]
fn key_is_split_at_its_first_dot() {
    let keys = keys_with("id", &hash_of(b"a.b"));
    assert!(keys.verify("id.a.b", &mut WorkLog::new()));
    assert!(!keys.verify("id.a", &mut WorkLog::new()));
}

#[test]
fn the_example_key_is_accepted_by_its_hash() {
    let content = format!("a1b2c3d4:{}\n", hash_of(b"dev"));
    let keys = from_content(&content).unwrap();
    assert!(keys.verify("a1b2c3d4.dev", &mut WorkLog::new()));
    assert!(!keys.verify("a1b2c3d4:dev", &mut WorkLog::new()));
}

#[test]
fn hash_that_asks_for_more_than_can_be_allocated_is_never_matched() {
    let hash = hash_of(b"secret");
    let costly = hash.replacen("$y$j9T$", "$y$jk0T$", 1);
    assert_ne!(hash, costly);
    let params = "jk0T".parse::<Params>().unwrap();
    assert_eq!((params.n(), params.r(), params.p()), (1 << 51, 32, 1));
    assert!(!is_cost_bounded(&costly));
    assert!(!keys_with("id", &costly).verify("id.secret", &mut WorkLog::new()));
    assert!(is_cost_bounded(&hash));
    assert!(keys_with("id", &hash).verify("id.secret", &mut WorkLog::new()));
}

#[test]
fn hash_of_another_cost_is_matched() {
    for params in ["j7.", "j75", "j9T/.", "/75"] {
        let parsed = params.parse::<Params>().unwrap();
        let hash = Yescrypt::from(parsed).hash_password(b"secret").unwrap().to_string();
        assert!(is_cost_bounded(&hash));
        assert!(keys_with("id", &hash).verify("id.secret", &mut WorkLog::new()), "{}", params);
        assert!(!keys_with("id", &hash).verify("id.other", &mut WorkLog::new()), "{}", params);
    }
}

#[test]
fn cost_is_bounded_by_what_can_be_allocated() {
    let bounded = |params: &str| is_cost_bounded(&format!("$y${}$salt$hash", params));
    // The parameters, and N, r and p as yescrypt reads them.
    for (params, n, r, p, fits) in [
        ("j9T", 12, 32, 1, true),
        ("jO.", 27, 1, 1, true),
        ("jj.", 48, 1, 1, true),
        ("jk/kC", 50, 63, 1, true),
        ("jk/kD", 50, 64, 1, false),
        ("jk0T", 51, 32, 1, false),
        ("jk0S", 51, 31, 1, true),
        ("jk4.", 55, 1, 1, true),
        ("jk5.", 56, 1, 1, false),
        ("j9T..", 12, 32, 2, true),
        ("/9T.1", 12, 32, 5, true),
        ("j9s..", 12, 561, 1, true),
        ("j9u..", 12, 8753, 1, true),
    ] {
        let parsed = params.parse::<Params>().unwrap();
        assert_eq!((parsed.n(), parsed.r(), parsed.p()), (1 << n, r, p), "{}", params);
        assert_eq!(bounded(params), fits, "{}", params);
    }
    // Nothing is computed for parameters that are malformed.
    for params in ["", "j", "j9", "jkzT", "j9T!", "!9T", "j\u{e9}T"] {
        assert!(params.parse::<Params>().is_err(), "{}", params);
        assert!(bounded(params), "{}", params);
    }
    assert!(is_cost_bounded("no hash"));
}

#[test]
fn broken_hash_is_never_matched() {
    for broken in ["", "$", "$y$", "$y$j9T", "$y$j9T$$", "$y$j9T$a$b$c", "$5$a$b", "plain"] {
        assert!(!keys_with("id", broken).verify("id.secret", &mut WorkLog::new()));
    }
}

#[test]
fn dummy_hash_is_that_of_another_text() {
    let hash = get_dummy_hash().unwrap();
    assert!(hash.starts_with("$y$j9T$"));
    assert!(Yescrypt::default().verify_password(b"this might be overkill", hash.as_str()).is_ok());
    assert!(!dummy_verify(&hash));
    assert!(dummy_verify(&hash_of(b"it probably is")));
}

#[test]
fn unknown_keys_cost_a_verification_of_the_dummy() {
    let mut keys = keys_with("id", "$y$one");
    keys.add("other".to_string(), "$y$two".to_string());
    keys.add("id".to_string(), "$y$three".to_string());
    for key in ["", "id", "nobody.secret", ".secret"] {
        let plan = keys.plan(key);
        assert!(!plan.genuine);
        assert_eq!(plan.secret, "it probably is");
        assert_eq!(plan.hashes, vec![dummy()]);
    }
    let plan = keys.plan("id.secret");
    assert!(plan.genuine);
    assert_eq!(plan.secret, "secret");
    assert_eq!(plan.hashes, vec!["$y$one", "$y$three"]);
}

#[test]
fn dummy_accepts_nobody() {
    // Not even where the dummy hash is that of the dummy secret.
    let keys = Keys::new(hash_of(b"it probably is"));
    let plan = keys.plan("it probably is");
    assert!(!plan.genuine);
    assert!(!plan.run(&mut WorkLog::new()));
    assert!(!keys.verify("id.it probably is", &mut WorkLog::new()));
}

#[test]
fn appending_a_line_admits_its_key() {
    let before = format!("first:{}\n", hash_of(b"one"));
    let after = format!("{}second:{}\n", before, hash_of(b"two"));
    assert!(!from_content(&before).unwrap().verify("second.two", &mut WorkLog::new()));
    let keys = from_content(&after).unwrap();
    assert!(keys.verify("first.one", &mut WorkLog::new()));
    assert!(keys.verify("second.two", &mut WorkLog::new()));
    assert!(!keys.verify("second.one", &mut WorkLog::new()));
}

#[test]
fn every_key_costs_a_verification() {
    let mut keys = keys_with("one", &hash_of(b"a"));
    keys.add("two".to_string(), hash_of(b"b"));
    keys.add("two".to_string(), hash_of(b"c"));
    let count = |key: &str| {
        let mut log = WorkLog::new();
        let accepted = keys.verify(key, &mut log);
        (accepted, log.count())
    };
    assert_eq!(count("noseparator"), (false, 1));
    assert_eq!(count("unknownid.secret"), (false, 1));
    assert_eq!(count("one.wrong"), (false, 1));
    assert_eq!(count("one.a"), (true, 1));
    assert_eq!(count("two.wrong"), (false, 2));
    assert_eq!(count("two.b"), (true, 1));
    assert_eq!(count("two.c"), (true, 2));
}

#[test]
fn log_goes_on_over_several_keys() {
    let keys = keys_with("id", &hash_of(b"a"));
    let mut log = WorkLog::new();
    assert_eq!(log.count(), 0);
    assert!(!keys.verify("id.b", &mut log));
    assert!(keys.verify("id.a", &mut log));
    assert_eq!(log.count(), 2);
}

#[test]
fn memory_is_bounded_by_what_can_be_allocated() {
    assert!(memory_fits(4096, 32, 1, true));
    // 128 bytes in each of 32 parts of each block.
    let most = isize::MAX as u64 / (128 * 32);
    assert!(memory_fits(most, 32, 1, true));
    assert!(!memory_fits(most + 1, 32, 1, true));
    assert!(!memory_fits(u64::MAX, u32::MAX, u32::MAX, false));
    assert!(memory_fits(0, 0, 0, true));
}
