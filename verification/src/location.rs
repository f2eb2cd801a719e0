//! Where a file lives: a local file, or an object in S3, Google Cloud
//! Storage, Azure Blob Storage or behind plain HTTP(S).
//!
//! The decision is made here from the text of the location; building the
//! store client itself is left to the caller.
use vstd::prelude::*;
use vstd::string::*;
use crate::text::{contains, has_infix, has_prefix, opt_string, opt_text, same_text, starts_with, to_owned_opt, trim_leading, trim_start_char};

verus! {

/// Cloud object stores whose URL names a bucket (or container) as its host.
#[derive(Clone, Copy, Debug, PartialEq, Eq, Structural)]
pub enum BucketStore {
    S3,
    Gcs,
    Azure,
}

/// The store a location resolves to, and the object's path in that store.
pub enum StoreTarget {
    /// A file on the local file system: the store is rooted at `parent`.
    Local { parent: String, object_path: String },
    /// An object in an S3 bucket.
    S3 { bucket: String, object_path: String, region: Option<String>, skip_signature: bool },
    /// An object in a Google Cloud Storage bucket.
    Gcs { bucket: String, object_path: String, skip_signature: bool },
    /// An object in an Azure Blob Storage container.
    Azure { container: String, object_path: String, skip_signature: bool },
    /// A file read over HTTP(S) at the whole URL `url`: its port and query
    /// string are kept, and ranged reads follow redirects.
    HttpUrl { url: String },
}

/// The mathematical content of a [`StoreTarget`].
pub enum TargetSpec {
    Local { parent: Seq<char>, object_path: Seq<char> },
    S3 { bucket: Seq<char>, object_path: Seq<char>, region: Option<Seq<char>>, skip_signature: bool },
    Gcs { bucket: Seq<char>, object_path: Seq<char>, skip_signature: bool },
    Azure { container: Seq<char>, object_path: Seq<char>, skip_signature: bool },
    HttpUrl { url: Seq<char> },
}

impl View for StoreTarget {
    type V = TargetSpec;

    open spec fn view(&self) -> TargetSpec {
        match self {
            StoreTarget::Local { parent, object_path } =>
                TargetSpec::Local { parent: parent@, object_path: object_path@ },
            StoreTarget::S3 { bucket, object_path, region, skip_signature } => TargetSpec::S3 {
                bucket: bucket@,
                object_path: object_path@,
                region: opt_string(*region),
                skip_signature: *skip_signature,
            },
            StoreTarget::Gcs { bucket, object_path, skip_signature } => TargetSpec::Gcs {
                bucket: bucket@,
                object_path: object_path@,
                skip_signature: *skip_signature,
            },
            StoreTarget::Azure { container, object_path, skip_signature } => TargetSpec::Azure {
                container: container@,
                object_path: object_path@,
                skip_signature: *skip_signature,
            },
            StoreTarget::HttpUrl { url } => TargetSpec::HttpUrl { url: url@ },
        }
    }
}

/// Why a location could not be resolved to a store.
pub enum LocationError {
    /// The local path has no parent directory.
    NoParentDirectory(String),
    /// The local path has no final file name.
    NoFileName(String),
    /// The local file name is not valid UTF-8.
    NonUtf8FileName,
    /// The URL could not be parsed; the parser's message.
    UrlParse(String),
    /// The URL of a bucket store names no bucket (or container).
    MissingBucket(BucketStore),
    /// The URL's scheme names no supported store.
    UnsupportedScheme(String),
}

/// The mathematical content of a [`LocationError`].
pub enum LocationErrorSpec {
    NoParentDirectory(Seq<char>),
    NoFileName(Seq<char>),
    NonUtf8FileName,
    UrlParse(Seq<char>),
    MissingBucket(BucketStore),
    UnsupportedScheme(Seq<char>),
}

impl View for LocationError {
    type V = LocationErrorSpec;

    open spec fn view(&self) -> LocationErrorSpec {
        match self {
            LocationError::NoParentDirectory(p) => LocationErrorSpec::NoParentDirectory(p@),
            LocationError::NoFileName(p) => LocationErrorSpec::NoFileName(p@),
            LocationError::NonUtf8FileName => LocationErrorSpec::NonUtf8FileName,
            LocationError::UrlParse(m) => LocationErrorSpec::UrlParse(m@),
            LocationError::MissingBucket(k) => LocationErrorSpec::MissingBucket(*k),
            LocationError::UnsupportedScheme(s) => LocationErrorSpec::UnsupportedScheme(s@),
        }
    }
}

/// The parts of a parsed URL that locating an object needs.
pub struct UrlParts {
    pub scheme: String,
    pub host: Option<String>,
    pub path: String,
}

/// What `url::Url::parse` gives for `input`: on success the URL's scheme,
/// host (if any) and path; on failure the text of the parse error.
pub uninterp spec fn url_parse_outcome(input: Seq<char>) -> Result<
    (Seq<char>, Option<Seq<char>>, Seq<char>),
    Seq<char>,
>;

/// What `std::path::Path::parent` gives for the path `path`.
pub uninterp spec fn path_parent_of(path: Seq<char>) -> Option<Seq<char>>;

/// What `std::path::Path::file_name` gives for the path `path`, with the
/// name's UTF-8 text when it has one.
pub uninterp spec fn path_file_name_of(path: Seq<char>) -> Option<Option<Seq<char>>>;

/// The raw text of the `object_store::path::Path` built from `text`.
pub uninterp spec fn object_store_path_of(text: Seq<char>) -> Seq<char>;

/// Calls `url::Url::parse` on `input` and hands back the URL's `scheme()`,
/// `host_str()` and `path()`, or the parse error's message.  The contract
/// claims only that the outcome is a function of the input text.
#[verifier::external_body]
fn parse_url(input: &str) -> (res: Result<UrlParts, String>)
    ensures
        match res {
            Ok(parts) => url_parse_outcome(input@) == Ok::<
                (Seq<char>, Option<Seq<char>>, Seq<char>),
                Seq<char>,
            >((parts.scheme@, opt_string(parts.host), parts.path@)),
            Err(msg) => url_parse_outcome(input@) == Err::<
                (Seq<char>, Option<Seq<char>>, Seq<char>),
                Seq<char>,
            >(msg@),
        },
{
    match url::Url::parse(input) {
        Ok(u) => Ok(UrlParts {
            scheme: u.scheme().to_string(),
            host: match u.host_str() {
                Some(h) => Some(h.to_string()),
                None => None,
            },
            path: u.path().to_string(),
        }),
        Err(e) => Err(e.to_string()),
    }
}

/// Calls `std::path::Path::parent` on `path`.  The contract claims only
/// that the outcome is a function of the path text.
#[verifier::external_body]
fn path_parent(path: &str) -> (res: Option<String>)
    ensures
        opt_string(res) == path_parent_of(path@),
{
    match std::path::Path::new(path).parent() {
        Some(p) => Some(p.to_string_lossy().into_owned()),
        None => None,
    }
}

/// Calls `std::path::Path::file_name` on `path`, converting the name to
/// UTF-8 text where it is valid UTF-8.  The contract claims only that the
/// outcome is a function of the path text.
#[verifier::external_body]
fn path_file_name(path: &str) -> (res: Option<Option<String>>)
    ensures
        match res {
            None => path_file_name_of(path@) == None::<Option<Seq<char>>>,
            Some(name) => path_file_name_of(path@) == Some(opt_string(name)),
        },
{
    match std::path::Path::new(path).file_name() {
        Some(name) => match name.to_str() {
            Some(s) => Some(Some(s.to_string())),
            None => Some(None),
        },
        None => None,
    }
}

/// Calls `object_store::path::Path::from` on `text` and returns the raw
/// text of the resulting path.  The contract claims only that the outcome
/// is a function of the input text.
#[verifier::external_body]
fn object_store_path(text: &str) -> (res: String)
    ensures
        res@ == object_store_path_of(text@),
{
    object_store::path::Path::from(text).into()
}

/// The locations that are read from the local file system: no scheme
/// separator at all, or an explicit `file://` prefix.
pub open spec fn is_local_location(url: Seq<char>) -> bool {
    !has_infix(url, "://"@) || has_prefix(url, "file://"@)
}

/// The local path that a local location names.
pub open spec fn local_path_of(url: Seq<char>) -> Seq<char> {
    if has_prefix(url, "file://"@) {
        url.skip("file://"@.len() as int)
    } else {
        url
    }
}

/// The directory a local store is rooted at: the path's parent, or the
/// working directory when the path has no directory part.
pub open spec fn store_root(parent: Seq<char>) -> Seq<char> {
    if parent.len() == 0 { "."@ } else { parent }
}

/// How a local path resolves, given what `Path::parent` and
/// `Path::file_name` give for it: the directory to root the store at and
/// the file's name, or why there is none.
pub open spec fn local_parts_of(
    path: Seq<char>,
    parent: Option<Seq<char>>,
    name: Option<Option<Seq<char>>>,
) -> Result<(Seq<char>, Seq<char>), LocationErrorSpec> {
    match parent {
        None => Err(LocationErrorSpec::NoParentDirectory(path)),
        Some(parent) => match name {
            None => Err(LocationErrorSpec::NoFileName(path)),
            Some(None) => Err(LocationErrorSpec::NonUtf8FileName),
            Some(Some(name)) => Ok((store_root(parent), name)),
        },
    }
}

/// How a parsed URL resolves, given its scheme and host and the store path
/// of its key: the target store, or why there is none.  `anon` asks every
/// cloud store for unsigned requests; `region` configures S3 only.
pub open spec fn url_target_of(
    url: Seq<char>,
    scheme: Seq<char>,
    host: Option<Seq<char>>,
    object_path: Seq<char>,
    region: Option<Seq<char>>,
    anon: bool,
) -> Result<TargetSpec, LocationErrorSpec> {
    if scheme == "s3"@ || scheme == "s3a"@ {
        match host {
            None => Err(LocationErrorSpec::MissingBucket(BucketStore::S3)),
            Some(bucket) => Ok(TargetSpec::S3 { bucket, object_path, region, skip_signature: anon }),
        }
    } else if scheme == "gs"@ || scheme == "gcs"@ {
        match host {
            None => Err(LocationErrorSpec::MissingBucket(BucketStore::Gcs)),
            Some(bucket) => Ok(TargetSpec::Gcs { bucket, object_path, skip_signature: anon }),
        }
    } else if scheme == "az"@ || scheme == "abfs"@ || scheme == "abfss"@ {
        match host {
            None => Err(LocationErrorSpec::MissingBucket(BucketStore::Azure)),
            Some(container) => Ok(TargetSpec::Azure { container, object_path, skip_signature: anon }),
        }
    } else if scheme == "http"@ || scheme == "https"@ {
        Ok(TargetSpec::HttpUrl { url })
    } else {
        Err(LocationErrorSpec::UnsupportedScheme(scheme))
    }
}

/// How a location resolves: the target store, or why there is none.
pub open spec fn resolve_location(
    url: Seq<char>,
    region: Option<Seq<char>>,
    anon: bool,
) -> Result<TargetSpec, LocationErrorSpec> {
    if is_local_location(url) {
        let path = local_path_of(url);
        match local_parts_of(path, path_parent_of(path), path_file_name_of(path)) {
            Err(e) => Err(e),
            Ok((root, name)) => Ok(
                TargetSpec::Local { parent: root, object_path: object_store_path_of(name) },
            ),
        }
    } else {
        match url_parse_outcome(url) {
            Err(msg) => Err(LocationErrorSpec::UrlParse(msg)),
            Ok((scheme, host, path)) => url_target_of(
                url,
                scheme,
                host,
                object_store_path_of(trim_leading(path, '/')),
                region,
                anon,
            ),
        }
    }
}

/// The spec view of a resolution outcome.
pub open spec fn resolution_view(r: Result<StoreTarget, LocationError>) -> Result<
    TargetSpec,
    LocationErrorSpec,
> {
    match r {
        Ok(t) => Ok(t@),
        Err(e) => Err(e@),
    }
}

/// The view of a local resolution outcome.
pub open spec fn local_parts_view(r: Result<(String, String), LocationError>) -> Result<
    (Seq<char>, Seq<char>),
    LocationErrorSpec,
> {
    match r {
        Ok((root, name)) => Ok((root@, name@)),
        Err(e) => Err(e@),
    }
}

/// Resolves a local path from what `Path::parent` (`parent`) and
/// `Path::file_name` (`name`) give for it: the directory to root the store
/// at (the working directory when the path has no directory part) and the
/// file's name.
pub fn local_parts(path: &str, parent: Option<String>, name: Option<Option<String>>) -> (r: Result<
    (String, String),
    LocationError,
>)
    ensures
        local_parts_view(r) == local_parts_of(
            path@,
            opt_string(parent),
            match name {
                None => None,
                Some(n) => Some(opt_string(n)),
            },
        ),
{
    let parent = match parent {
        Some(p) => p,
        None => return Err(LocationError::NoParentDirectory(String::from_str(path))),
    };
    let name = match name {
        None => return Err(LocationError::NoFileName(String::from_str(path))),
        Some(None) => return Err(LocationError::NonUtf8FileName),
        Some(Some(n)) => n,
    };
    let root = if parent.as_str().unicode_len() == 0 {
        proof {
            reveal_strlit(".");
        }
        String::from_str(".")
    } else {
        parent
    };
    Ok((root, name))
}

/// Resolves a parsed URL from its scheme and host and the store path of
/// its key.  `anon` asks every cloud store for unsigned requests; `region`
/// configures S3 only; an HTTP(S) location is read at its whole URL.
pub fn url_target(
    url_str: &str,
    scheme: &str,
    host: Option<String>,
    object_path: String,
    region: Option<&str>,
    anon: bool,
) -> (r: Result<StoreTarget, LocationError>)
    ensures
        resolution_view(r) == url_target_of(
            url_str@,
            scheme@,
            opt_string(host),
            object_path@,
            opt_text(region),
            anon,
        ),
{
    if same_text(scheme, "s3") || same_text(scheme, "s3a") {
        match host {
            None => Err(LocationError::MissingBucket(BucketStore::S3)),
            Some(bucket) => Ok(StoreTarget::S3 {
                bucket,
                object_path,
                region: to_owned_opt(region),
                skip_signature: anon,
            }),
        }
    } else if same_text(scheme, "gs") || same_text(scheme, "gcs") {
        match host {
            None => Err(LocationError::MissingBucket(BucketStore::Gcs)),
            Some(bucket) => Ok(StoreTarget::Gcs { bucket, object_path, skip_signature: anon }),
        }
    } else if same_text(scheme, "az") || same_text(scheme, "abfs") || same_text(scheme, "abfss") {
        match host {
            None => Err(LocationError::MissingBucket(BucketStore::Azure)),
            Some(container) => Ok(StoreTarget::Azure { container, object_path, skip_signature: anon }),
        }
    } else if same_text(scheme, "http") || same_text(scheme, "https") {
        Ok(StoreTarget::HttpUrl { url: String::from_str(url_str) })
    } else {
        Err(LocationError::UnsupportedScheme(String::from_str(scheme)))
    }
}

/// Resolves a location (a local path, a `file://` URL, or an `s3://`,
/// `s3a://`, `gs://`, `gcs://`, `az://`, `abfs://`, `abfss://`, `http://`
/// or `https://` URL) to the store that holds it and the object's path in
/// that store.  `anon` asks every cloud store for unsigned requests;
/// `region` configures S3 only.
pub fn make_store_and_path(url_str: &str, region: Option<&str>, anon: bool) -> (res: Result<
    StoreTarget,
    LocationError,
>)
    ensures
        resolution_view(res) == resolve_location(url_str@, opt_text(region), anon),
{
    let is_file_url = starts_with(url_str, "file://");
    if !contains(url_str, "://") || is_file_url {
        let path: &str = if is_file_url {
            let n = url_str.unicode_len();
            let k = "file://".unicode_len();
            url_str.substring_char(k, n)
        } else {
            url_str
        };
        assert(path@ == local_path_of(url_str@));
        let parent = path_parent(path);
        let name = path_file_name(path);
        let (root, file_name) = match local_parts(path, parent, name) {
            Ok(parts) => parts,
            Err(e) => return Err(e),
        };
        let object_path = object_store_path(file_name.as_str());
        return Ok(StoreTarget::Local { parent: root, object_path });
    }
    let parts = match parse_url(url_str) {
        Ok(p) => p,
        Err(msg) => return Err(LocationError::UrlParse(msg)),
    };
    let key = trim_start_char(parts.path.as_str(), '/');
    let object_path = object_store_path(key);
    url_target(url_str, parts.scheme.as_str(), parts.host, object_path, region, anon)
}

/// The message that reports a location error.
pub open spec fn location_error_text(e: LocationErrorSpec) -> Seq<char> {
    match e {
        LocationErrorSpec::NoParentDirectory(p) => "Cannot determine parent directory for: "@ + p,
        LocationErrorSpec::NoFileName(p) => "Cannot determine filename for: "@ + p,
        LocationErrorSpec::NonUtf8FileName => "Non-UTF8 filename"@,
        LocationErrorSpec::UrlParse(m) => "URL parse error: "@ + m,
        LocationErrorSpec::MissingBucket(BucketStore::S3) => "Missing S3 bucket in URL"@,
        LocationErrorSpec::MissingBucket(BucketStore::Gcs) => "Missing GCS bucket in URL"@,
        LocationErrorSpec::MissingBucket(BucketStore::Azure) => "Missing Azure container in URL"@,
        LocationErrorSpec::UnsupportedScheme(s) => "Unsupported URL scheme: "@ + s,
    }
}

impl LocationError {
    /// The message that reports this error.
    pub fn message(&self) -> (r: String)
        ensures
            r@ == location_error_text(self@),
    {
        match self {
            LocationError::NoParentDirectory(p) => {
                let mut r = String::from_str("Cannot determine parent directory for: ");
                r.append(p.as_str());
                r
            },
            LocationError::NoFileName(p) => {
                let mut r = String::from_str("Cannot determine filename for: ");
                r.append(p.as_str());
                r
            },
            LocationError::NonUtf8FileName => String::from_str("Non-UTF8 filename"),
            LocationError::UrlParse(m) => {
                let mut r = String::from_str("URL parse error: ");
                r.append(m.as_str());
                r
            },
            LocationError::MissingBucket(BucketStore::S3) => String::from_str(
                "Missing S3 bucket in URL",
            ),
            LocationError::MissingBucket(BucketStore::Gcs) => String::from_str(
                "Missing GCS bucket in URL",
            ),
            LocationError::MissingBucket(BucketStore::Azure) => String::from_str(
                "Missing Azure container in URL",
            ),
            LocationError::UnsupportedScheme(s) => {
                let mut r = String::from_str("Unsupported URL scheme: ");
                r.append(s.as_str());
                r
            },
        }
    }
}

} // verus!

verus! {

/// A bucket store's URL resolves to that store, with the URL's host as the
/// bucket (or container) and the key's store path as the object path, and
/// asks for unsigned requests exactly when `anon` is true; only S3 takes
/// the region.  A bucket store's URL without a host names no bucket.  An
/// HTTP(S) URL resolves to itself, whole.
pub proof fn lemma_url_targets(
    url: Seq<char>,
    scheme: Seq<char>,
    host: Option<Seq<char>>,
    object_path: Seq<char>,
    region: Option<Seq<char>>,
    anon: bool,
)
    ensures
        ({
            let r = url_target_of(url, scheme, host, object_path, region, anon);
            &&& (scheme == "s3"@ || scheme == "s3a"@) ==> match host {
                Some(b) => r matches Ok(TargetSpec::S3 { bucket, object_path: p, region: g, skip_signature })
                    && bucket == b && p == object_path && g == region && skip_signature == anon,
                None => r == Err::<TargetSpec, LocationErrorSpec>(
                    LocationErrorSpec::MissingBucket(BucketStore::S3),
                ),
            }
            &&& (scheme == "gs"@ || scheme == "gcs"@) ==> match host {
                Some(b) => r matches Ok(TargetSpec::Gcs { bucket, object_path: p, skip_signature })
                    && bucket == b && p == object_path && skip_signature == anon,
                None => r == Err::<TargetSpec, LocationErrorSpec>(
                    LocationErrorSpec::MissingBucket(BucketStore::Gcs),
                ),
            }
            &&& (scheme == "az"@ || scheme == "abfs"@ || scheme == "abfss"@) ==> match host {
                Some(b) => r matches Ok(TargetSpec::Azure { container, object_path: p, skip_signature })
                    && container == b && p == object_path && skip_signature == anon,
                None => r == Err::<TargetSpec, LocationErrorSpec>(
                    LocationErrorSpec::MissingBucket(BucketStore::Azure),
                ),
            }
            &&& (scheme == "http"@ || scheme == "https"@) ==> (r matches Ok(TargetSpec::HttpUrl { url: u })
                && u == url)
            &&& !(scheme == "s3"@ || scheme == "s3a"@ || scheme == "gs"@ || scheme == "gcs"@ || scheme
                == "az"@ || scheme == "abfs"@ || scheme == "abfss"@ || scheme == "http"@ || scheme
                == "https"@) ==> r == Err::<TargetSpec, LocationErrorSpec>(
                LocationErrorSpec::UnsupportedScheme(scheme),
            )
        }),
{
    reveal_strlit("s3");
    reveal_strlit("s3a");
    reveal_strlit("gs");
    reveal_strlit("gcs");
    reveal_strlit("az");
    reveal_strlit("abfs");
    reveal_strlit("abfss");
    reveal_strlit("http");
    reveal_strlit("https");
    assert("s3"@[0] == 's' && "s3a"@[0] == 's' && "gs"@[0] == 'g' && "gcs"@[0] == 'g');
    assert("az"@[0] == 'a' && "abfs"@[0] == 'a' && "abfss"@[0] == 'a');
    assert("http"@[0] == 'h' && "https"@[0] == 'h');
}

/// Whatever a location resolves to: an S3, GCS or Azure target asks for
/// unsigned requests exactly when `anon` is true, and only S3 carries the
/// region, the one asked for; an HTTP(S) target is the whole location
/// (port and query string kept); a local store is rooted at a non-empty
/// directory.
pub proof fn lemma_resolved_targets(url: Seq<char>, region: Option<Seq<char>>, anon: bool)
    ensures
        ({
            let r = resolve_location(url, region, anon);
            &&& r matches Ok(TargetSpec::S3 { region: g, skip_signature, .. }) ==> skip_signature == anon
                && g == region
            &&& r matches Ok(TargetSpec::Gcs { skip_signature, .. }) ==> skip_signature == anon
            &&& r matches Ok(TargetSpec::Azure { skip_signature, .. }) ==> skip_signature == anon
            &&& r matches Ok(TargetSpec::HttpUrl { url: u }) ==> u == url
            &&& r matches Ok(TargetSpec::Local { parent, .. }) ==> parent.len() > 0
        }),
{
    reveal_strlit(".");
    if !is_local_location(url) {
        match url_parse_outcome(url) {
            Err(_) => {},
            Ok((scheme, host, path)) => {
                lemma_url_targets(
                    url,
                    scheme,
                    host,
                    object_store_path_of(trim_leading(path, '/')),
                    region,
                    anon,
                );
            },
        }
    }
}

} // verus!

verus! {

/// A local path resolves exactly when `Path::parent` and `Path::file_name`
/// give a parent and a UTF-8 name: the store is rooted at the parent, or at
/// the working directory (`.`) when the parent is empty, and the object is
/// the file's name.  Otherwise the error names the missing part (with the
/// path where there is one).
pub proof fn lemma_local_parts(
    path: Seq<char>,
    parent: Option<Seq<char>>,
    name: Option<Option<Seq<char>>>,
)
    ensures
        ({
            let r = local_parts_of(path, parent, name);
            &&& parent is None ==> r == Err::<(Seq<char>, Seq<char>), LocationErrorSpec>(
                LocationErrorSpec::NoParentDirectory(path),
            )
            &&& (parent is Some && name is None) ==> r == Err::<(Seq<char>, Seq<char>), LocationErrorSpec>(
                LocationErrorSpec::NoFileName(path),
            )
            &&& (parent is Some && name == Some(None::<Seq<char>>)) ==> r == Err::<
                (Seq<char>, Seq<char>),
                LocationErrorSpec,
            >(LocationErrorSpec::NonUtf8FileName)
            &&& match (parent, name) {
                (Some(p), Some(Some(f))) => r matches Ok((root, file)) && file == f && (p.len() > 0
                    ==> root == p) && (p.len() == 0 ==> root == seq!['.']),
                _ => true,
            }
        }),
{
    reveal_strlit(".");
}

} // verus!
