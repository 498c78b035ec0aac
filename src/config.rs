use vstd::prelude::*;

verus! {

/// Process settings: where the tree lives, how the server listens, and the session and
/// throttling limits.
#[derive(Debug)]
pub struct AppConfig {
    pub root_dir: String,
    pub bind_addr: String,
    pub session_ttl_seconds: u64,
    pub secure_cookies: bool,
    pub login_max_failures: u32,
    pub login_block_seconds: u64,
    pub content_security_policy: String,
}

impl Default for AppConfig {
    fn default() -> (r: Self)
        ensures
            r.session_ttl_seconds == 1800,
            r.secure_cookies == false,
            r.login_max_failures == 5,
            r.login_block_seconds == 60,
    {
        AppConfig {
            root_dir: String::from_str("/tmp/mlist-files"),
            bind_addr: String::from_str("0.0.0.0:3000"),
            session_ttl_seconds: 1800,
            secure_cookies: false,
            login_max_failures: 5,
            login_block_seconds: 60,
            content_security_policy: String::from_str(
                "default-src 'self'; img-src 'self' data: blob:; media-src 'self' blob:; object-src 'none'; frame-ancestors 'self'; script-src 'self'; style-src 'self' 'unsafe-inline';",
            ),
        }
    }
}

/// Whether a configured root is an absolute path (it begins with `/`).
pub fn root_dir_is_absolute(root_dir: &str) -> (r: bool)
    ensures
        r == (root_dir@.len() > 0 && root_dir@[0] == '/'),
{
    root_dir.unicode_len() > 0 && root_dir.get_char(0) == '/'
}

} // verus!
