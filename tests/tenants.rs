use watermarker::tenants::{discover_prefixes, flat_prefixes, is_canonical_uuid_str, is_tenant_directory, tenant_ids, tenant_prefixes};

#[test]
fn rejects_malformed_tenant() {
    assert!(!is_tenant_directory("users/not-a-uuid/"));
}

#[test]
fn accepts_canonical_tenant() {
    assert!(is_tenant_directory("users/123e4567-e89b-12d3-a456-426614174000/"));
}

#[test]
fn rejects_near_misses() {
    assert!(!is_tenant_directory("users/123E4567-e89b-12d3-a456-426614174000/"));
    assert!(!is_tenant_directory("users/123e4567-e89b-12d3-a456-426614174000"));
    assert!(!is_tenant_directory("users/123e4567e89b-12d3-a456-4266141740001/"));
    assert!(!is_tenant_directory("groups/123e4567-e89b-12d3-a456-426614174000/"));
    assert!(!is_tenant_directory("users/123e4567-e89b-12d3-a456-42661417400g/"));
    assert!(!is_tenant_directory(""));
}

#[test]
fn uuid_shape() {
    assert!(is_canonical_uuid_str("00000000-0000-0000-0000-000000000000"));
    assert!(!is_canonical_uuid_str("00000000-0000-0000-0000-00000000000"));
    assert!(!is_canonical_uuid_str("000000000-000-0000-0000-000000000000"));
}

#[test]
fn tenant_ids_keep_valid_in_order() {
    let listed = vec![
        "users/not-a-uuid/".to_string(),
        "users/123e4567-e89b-12d3-a456-426614174000/".to_string(),
        "users/tmp/".to_string(),
        "users/00000000-0000-0000-0000-0000000000ff/".to_string(),
    ];
    assert_eq!(
        tenant_ids(&listed),
        vec!["123e4567-e89b-12d3-a456-426614174000".to_string(), "00000000-0000-0000-0000-0000000000ff".to_string()]
    );
}

#[test]
fn empty_listing_gives_no_tenants() {
    assert!(tenant_ids(&Vec::new()).is_empty());
    assert!(discover_prefixes(&Vec::new(), false).is_empty());
}

#[test]
fn prefixes_of_tenant() {
    let p = tenant_prefixes("123e4567-e89b-12d3-a456-426614174000");
    assert_eq!(p.originals, "users/123e4567-e89b-12d3-a456-426614174000/originals/");
    assert_eq!(p.watermarks, "users/123e4567-e89b-12d3-a456-426614174000/watermarks/");
}

#[test]
fn flat_store_has_one_pair() {
    let p = flat_prefixes();
    assert_eq!(p.originals, "originals/");
    assert_eq!(p.watermarks, "watermarks/");
    let listed = vec!["users/123e4567-e89b-12d3-a456-426614174000/".to_string()];
    let all = discover_prefixes(&listed, true);
    assert_eq!(all.len(), 1);
    assert_eq!(all[0].originals, "originals/");
}

#[test]
fn discovery_per_tenant() {
    let listed = vec![
        "users/bad/".to_string(),
        "users/123e4567-e89b-12d3-a456-426614174000/".to_string(),
    ];
    let all = discover_prefixes(&listed, false);
    assert_eq!(all.len(), 1);
    assert_eq!(all[0].originals, "users/123e4567-e89b-12d3-a456-426614174000/originals/");
    assert_eq!(all[0].watermarks, "users/123e4567-e89b-12d3-a456-426614174000/watermarks/");
}
