use rustycogs::location::{
    local_parts, make_store_and_path, url_target, BucketStore, LocationError, StoreTarget,
};

fn local(url: &str) -> (String, String) {
    match make_store_and_path(url, None, false) {
        Ok(StoreTarget::Local { parent, object_path }) => (parent, object_path),
        _ => panic!("expected a local target for {}", url),
    }
}

#[test]
fn plain_path_is_local() {
    assert_eq!(local("/data/cogs/dem.tif"), ("/data/cogs".to_string(), "dem.tif".to_string()));
}

#[test]
fn relative_path_is_rooted_at_working_directory() {
    assert_eq!(local("dem.tif"), (".".to_string(), "dem.tif".to_string()));
}

#[test]
fn relative_path_with_directory_keeps_it() {
    assert_eq!(local("cogs/dem.tif"), ("cogs".to_string(), "dem.tif".to_string()));
}

#[test]
fn file_url_is_local_without_prefix() {
    assert_eq!(local("file:///data/dem.tif"), ("/data".to_string(), "dem.tif".to_string()));
}

#[test]
fn root_has_no_parent() {
    match make_store_and_path("/", None, false) {
        Err(e) => {
            assert!(matches!(e, LocationError::NoParentDirectory(ref p) if p == "/"));
            assert_eq!(e.message(), "Cannot determine parent directory for: /");
        }
        _ => panic!("expected an error"),
    }
}

#[test]
fn dot_dot_has_no_file_name() {
    match make_store_and_path("/data/..", None, false) {
        Err(e) => {
            assert!(matches!(e, LocationError::NoFileName(ref p) if p == "/data/.."));
            assert_eq!(e.message(), "Cannot determine filename for: /data/..");
        }
        _ => panic!("expected an error"),
    }
}

#[test]
fn s3_url_keeps_bucket_key_region_and_anon() {
    match make_store_and_path("s3://my-bucket/path/to/file.tif", Some("us-west-2"), true) {
        Ok(StoreTarget::S3 { bucket, object_path, region, skip_signature }) => {
            assert_eq!(bucket, "my-bucket");
            assert_eq!(object_path, "path/to/file.tif");
            assert_eq!(region.as_deref(), Some("us-west-2"));
            assert!(skip_signature);
        }
        _ => panic!("expected an S3 target"),
    }
}

#[test]
fn s3a_url_is_s3_without_region() {
    match make_store_and_path("s3a://b/k.tif", None, false) {
        Ok(StoreTarget::S3 { bucket, object_path, region, skip_signature }) => {
            assert_eq!(bucket, "b");
            assert_eq!(object_path, "k.tif");
            assert_eq!(region, None);
            assert!(!skip_signature);
        }
        _ => panic!("expected an S3 target"),
    }
}

#[test]
fn gcs_url() {
    for url in ["gs://bkt/a/b.tif", "gcs://bkt/a/b.tif"] {
        match make_store_and_path(url, Some("ignored"), true) {
            Ok(StoreTarget::Gcs { bucket, object_path, skip_signature }) => {
                assert_eq!(bucket, "bkt");
                assert_eq!(object_path, "a/b.tif");
                assert!(skip_signature);
            }
            _ => panic!("expected a GCS target"),
        }
    }
}

#[test]
fn azure_url() {
    for url in ["az://cont/x.tif", "abfs://cont/x.tif", "abfss://cont/x.tif"] {
        match make_store_and_path(url, None, false) {
            Ok(StoreTarget::Azure { container, object_path, skip_signature }) => {
                assert_eq!(container, "cont");
                assert_eq!(object_path, "x.tif");
                assert!(!skip_signature);
            }
            _ => panic!("expected an Azure target"),
        }
    }
}

#[test]
fn http_url_is_read_whole_with_port_and_query() {
    let url = "https://example.com:8443/eds/api/object/download?prefix=f.tif";
    match make_store_and_path(url, Some("us-east-1"), true) {
        Ok(StoreTarget::HttpUrl { url: u }) => assert_eq!(u, url),
        _ => panic!("expected an HTTP target"),
    }
}

#[test]
fn http_url_with_port() {
    match make_store_and_path("http://localhost:8080/a/b.tif", None, false) {
        Ok(StoreTarget::HttpUrl { url }) => assert_eq!(url, "http://localhost:8080/a/b.tif"),
        _ => panic!("expected an HTTP target"),
    }
}

#[test]
fn anonymous_azure_and_gcs() {
    for url in ["az://c/k.tif", "gs://b/k.tif"] {
        match make_store_and_path(url, None, true) {
            Ok(StoreTarget::Azure { object_path, skip_signature, .. })
            | Ok(StoreTarget::Gcs { object_path, skip_signature, .. }) => {
                assert_eq!(object_path, "k.tif");
                assert!(skip_signature);
            }
            _ => panic!("expected a cloud target"),
        }
    }
}

#[test]
fn local_parts_roots_empty_parent_at_working_directory() {
    match local_parts("a.tif", Some(String::new()), Some(Some("a.tif".to_string()))) {
        Ok((root, name)) => {
            assert_eq!(root, ".");
            assert_eq!(name, "a.tif");
        }
        Err(_) => panic!("expected parts"),
    }
    match local_parts("/d/a.tif", Some("/d".to_string()), Some(Some("a.tif".to_string()))) {
        Ok((root, name)) => {
            assert_eq!(root, "/d");
            assert_eq!(name, "a.tif");
        }
        Err(_) => panic!("expected parts"),
    }
}

#[test]
fn local_parts_errors() {
    assert!(matches!(
        local_parts("/", None, Some(None)),
        Err(LocationError::NoParentDirectory(ref p)) if p == "/"
    ));
    assert!(matches!(
        local_parts("/d/..", Some("/d".to_string()), None),
        Err(LocationError::NoFileName(ref p)) if p == "/d/.."
    ));
    assert!(matches!(
        local_parts("/d/x", Some("/d".to_string()), Some(None)),
        Err(LocationError::NonUtf8FileName)
    ));
}

#[test]
fn url_target_by_scheme() {
    match url_target("s3://b/k", "s3", Some("b".to_string()), "k".to_string(), Some("eu-west-1"), false) {
        Ok(StoreTarget::S3 { bucket, object_path, region, skip_signature }) => {
            assert_eq!(bucket, "b");
            assert_eq!(object_path, "k");
            assert_eq!(region.as_deref(), Some("eu-west-1"));
            assert!(!skip_signature);
        }
        _ => panic!("expected an S3 target"),
    }
    match url_target("abfss://c/k", "abfss", Some("c".to_string()), "k".to_string(), None, true) {
        Ok(StoreTarget::Azure { container, skip_signature, .. }) => {
            assert_eq!(container, "c");
            assert!(skip_signature);
        }
        _ => panic!("expected an Azure target"),
    }
    match url_target("https://h:1/k?q=1", "https", Some("h".to_string()), "k".to_string(), None, false) {
        Ok(StoreTarget::HttpUrl { url }) => assert_eq!(url, "https://h:1/k?q=1"),
        _ => panic!("expected an HTTP target"),
    }
    assert!(matches!(
        url_target("gs:///k", "gs", None, "k".to_string(), None, false),
        Err(LocationError::MissingBucket(BucketStore::Gcs))
    ));
    assert!(matches!(
        url_target("ftp://h/k", "ftp", Some("h".to_string()), "k".to_string(), None, false),
        Err(LocationError::UnsupportedScheme(ref s)) if s == "ftp"
    ));
}

#[test]
fn key_with_repeated_slashes_is_normalised_by_object_store() {
    match make_store_and_path("s3://b//x//y.tif", None, false) {
        Ok(StoreTarget::S3 { object_path, .. }) => assert_eq!(object_path, "x/y.tif"),
        _ => panic!("expected an S3 target"),
    }
}

#[test]
fn unsupported_scheme() {
    match make_store_and_path("ftp://host/a.tif", None, false) {
        Err(e) => {
            assert!(matches!(e, LocationError::UnsupportedScheme(ref s) if s == "ftp"));
            assert_eq!(e.message(), "Unsupported URL scheme: ftp");
        }
        _ => panic!("expected an error"),
    }
}

#[test]
fn unparsable_url() {
    match make_store_and_path("http://[::1/a.tif", None, false) {
        Err(e) => {
            assert!(matches!(e, LocationError::UrlParse(_)));
            assert!(e.message().starts_with("URL parse error: "));
        }
        _ => panic!("expected an error"),
    }
}

#[test]
fn missing_bucket_messages() {
    assert_eq!(LocationError::MissingBucket(BucketStore::S3).message(), "Missing S3 bucket in URL");
    assert_eq!(LocationError::MissingBucket(BucketStore::Gcs).message(), "Missing GCS bucket in URL");
    assert_eq!(
        LocationError::MissingBucket(BucketStore::Azure).message(),
        "Missing Azure container in URL"
    );
    assert_eq!(LocationError::NonUtf8FileName.message(), "Non-UTF8 filename");
}

#[test]
fn bucketless_s3_url() {
    match make_store_and_path("s3:///key.tif", None, false) {
        Err(LocationError::MissingBucket(BucketStore::S3)) => {}
        Ok(StoreTarget::S3 { bucket, .. }) => assert_eq!(bucket, ""),
        _ => panic!("unexpected outcome"),
    }
}
