use vstd::prelude::*;

verus! {

/// The address the server listens on when none is configured.
pub fn default_listen_address() -> (res: String)
    ensures
        res@ == "127.0.0.1:4566"@,
{
    "127.0.0.1:4566".to_owned()
}

/// How many requests are served at once when nothing is configured.
pub fn default_concurrent() -> (res: u32)
    ensures
        res == 50,
{
    50
}

/// A span of time: whole seconds and the nanoseconds past them.
#[derive(PartialEq, Eq, Structural, Clone, Copy, Debug)]
pub struct Span {
    pub secs: u64,
    pub nanos: u32,
}

/// How long a request may take when nothing is configured: 30 seconds.
pub fn default_timeout() -> (res: Span)
    ensures
        res == (Span { secs: 30, nanos: 0 }),
{
    Span { secs: 30, nanos: 0 }
}

/// The largest request body accepted when nothing is configured: 1 MiB.
pub fn default_max_body_bytes() -> (res: u64)
    ensures
        res == 1024 * 1024,
{
    1024 * 1024
}

/// The database used when none is configured: SQLite in memory.
pub fn default_db_dsn() -> (res: String)
    ensures
        res@ == "sqlite::memory:"@,
{
    "sqlite::memory:".to_owned()
}

/// Whether requests that set unsupported fields are refused when nothing
/// is configured: they are.
pub fn default_amz_error_on_unsupported() -> (res: bool)
    ensures
        res,
{
    true
}

/// The account created on first start, when configured: its keys and its
/// lifetime in minutes (none: it does not expire).
pub struct FirstUser {
    pub access_key: String,
    pub secret_key: String,
    pub lifetime: Option<u64>,
}

/// The files of the server's TLS certificate and private key.
pub struct ServerTls {
    pub cert_filename: String,
    pub key_filename: String,
}

/// The server's settings.
pub struct Server {
    pub listen_address: String,
    pub tls: Option<ServerTls>,
    pub concurrent: u32,
    pub timeout: Span,
    pub max_body_bytes: u64,
}

impl Default for Server {
    /// The server's settings when none are configured: the default
    /// address, concurrency, timeout and body limit, without TLS.
    fn default() -> (res: Server)
        ensures
            res.listen_address@ == "127.0.0.1:4566"@,
            res.tls is None,
            res.concurrent == 50,
            res.timeout == (Span { secs: 30, nanos: 0 }),
            res.max_body_bytes == 1024 * 1024,
    {
        Server {
            listen_address: default_listen_address(),
            tls: None,
            concurrent: default_concurrent(),
            timeout: default_timeout(),
            max_body_bytes: default_max_body_bytes(),
        }
    }
}

/// The service's configuration.
pub struct Root {
    pub first_user: Option<FirstUser>,
    pub server: Server,
    pub db_dsn: String,
    pub amz_error_on_unsupported: bool,
}

} // verus!
