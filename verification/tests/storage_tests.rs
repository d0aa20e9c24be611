use aruna_proxy::proxy::ProxyService;
use aruna_proxy::cache::Cache;
use aruna_proxy::storage::{completed_parts, remove_dashes, BucketCheck, PartETag, StorageError};
use std::sync::{Arc, RwLock};

#[test]
fn etags_lose_their_dashes() {
    assert_eq!(remove_dashes("abc-def-1"), "abcdef1");
    assert_eq!(remove_dashes("---"), "");
    assert_eq!(remove_dashes("plain"), "plain");
}

#[test]
fn parts_of_a_multipart_upload() {
    let parts = vec![
        PartETag { part_number: 1, etag: "\"a-b\"".to_string() },
        PartETag { part_number: 2, etag: "cd".to_string() },
    ];
    let done = completed_parts(&parts).unwrap();
    assert_eq!(done, vec![(1, "\"ab\"".to_string()), (2, "cd".to_string())]);
    let too_big = vec![
        PartETag { part_number: 1, etag: "x".to_string() },
        PartETag { part_number: i64::from(i32::MAX) + 1, etag: "y".to_string() },
    ];
    assert_eq!(completed_parts(&too_big), Err(StorageError::PartNumberOutOfRange));
    assert_eq!(completed_parts(&Vec::new()), Ok(Vec::new()));
}

#[test]
fn uploaded_part_records() {
    let part = PartETag::from_upload(3, Some("etag".to_string())).unwrap();
    assert_eq!(part.part_number, 3);
    assert_eq!(part.etag, "etag");
    assert!(matches!(PartETag::from_upload(3, None), Err(StorageError::MissingEtag)));
}

#[test]
fn bucket_check_steps() {
    let found = BucketCheck::start().next(Ok(()));
    assert!(matches!(found, BucketCheck::Done(Ok(()))));

    let missing = BucketCheck::start().next(Err("no such bucket".to_string()));
    assert!(matches!(missing, BucketCheck::Create));
    assert!(matches!(missing.next(Ok(())), BucketCheck::Done(Ok(()))));

    let refused = BucketCheck::start().next(Err("no such bucket".to_string()));
    match refused.next(Err("denied".to_string())) {
        BucketCheck::Done(Err(e)) => assert_eq!(e, "denied"),
        _ => panic!("the creation's error ends the check"),
    }
}

#[test]
fn proxy_service_shares_the_cache() {
    let cache = Arc::new(RwLock::new(Cache::new()));
    let service = ProxyService::_new(cache.clone());
    assert!(Arc::ptr_eq(&service.cache, &cache));
}
