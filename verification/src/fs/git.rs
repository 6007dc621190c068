//! The pure parts of the git-backed store: commit and URL validation,
//! credentials, and the cache-directory name of a repository.

use crate::strutil::{has_prefix, str_to_chars};
use sha2::Digest;
use vstd::prelude::*;

verus! {

/// Whether a character is a lowercase hexadecimal digit.
pub open spec fn is_hex_char(c: char) -> bool {
    (48 <= c as u32 <= 57) || (97 <= c as u32 <= 102)
}

/// What a commit identifier looks like: seven to forty lowercase
/// hexadecimal digits.
pub open spec fn spec_valid_commit_hash(s: Seq<char>) -> bool {
    7 <= s.len() <= 40 && forall|i: int| 0 <= i < s.len() ==> is_hex_char(#[trigger] s[i])
}

/// Checks a commit identifier: an abbreviated or full hash in lowercase hex.
pub fn is_valid_commit_hash(hash: &str) -> (r: bool)
    ensures
        r == spec_valid_commit_hash(hash@),
{
    let chars = str_to_chars(hash);
    let n = chars.len();
    if n < 7 || n > 40 {
        return false;
    }
    let mut i: usize = 0;
    while i < n
        invariant
            0 <= i <= n,
            n == chars@.len(),
            chars@ == hash@,
            7 <= n <= 40,
            forall|j: int| 0 <= j < i ==> is_hex_char(#[trigger] hash@[j]),
        decreases n - i,
    {
        let cv = chars[i] as u32;
        if !((cv >= 48 && cv <= 57) || (cv >= 97 && cv <= 102)) {
            return false;
        }
        i += 1;
    }
    true
}

/// What a supported repository URL looks like: an `https`, `http`, `git` or
/// `ssh` scheme, or the scp-like `git@host:path` form.
pub open spec fn spec_valid_git_url(s: Seq<char>) -> bool {
    ||| has_prefix(s, "https://"@)
    ||| has_prefix(s, "http://"@)
    ||| has_prefix(s, "git://"@)
    ||| has_prefix(s, "ssh://"@)
    ||| (has_prefix(s, "git@"@) && crate::strutil::find_char(s, ':') >= 0)
}

/// Checks a repository URL against the supported forms.
pub fn is_valid_git_url(url: &str) -> (r: bool)
    ensures
        r == spec_valid_git_url(url@),
{
    let chars = str_to_chars(url);
    proof {
        reveal_strlit("https://");
        reveal_strlit("http://");
        reveal_strlit("git://");
        reveal_strlit("ssh://");
        reveal_strlit("git@");
    }
    let https: Vec<char> = vec!['h', 't', 't', 'p', 's', ':', '/', '/'];
    let http: Vec<char> = vec!['h', 't', 't', 'p', ':', '/', '/'];
    let git: Vec<char> = vec!['g', 'i', 't', ':', '/', '/'];
    let ssh: Vec<char> = vec!['s', 's', 'h', ':', '/', '/'];
    let at: Vec<char> = vec!['g', 'i', 't', '@'];
    proof {
        assert(https@ =~= "https://"@);
        assert(http@ =~= "http://"@);
        assert(git@ =~= "git://"@);
        assert(ssh@ =~= "ssh://"@);
        assert(at@ =~= "git@"@);
    }
    if crate::strutil::chars_start_with(&chars, &https) {
        return true;
    }
    if crate::strutil::chars_start_with(&chars, &http) {
        return true;
    }
    if crate::strutil::chars_start_with(&chars, &git) {
        return true;
    }
    if crate::strutil::chars_start_with(&chars, &ssh) {
        return true;
    }
    if crate::strutil::chars_start_with(&chars, &at) {
        let colon = crate::strutil::vec_find_char(&chars, ':');
        return match colon {
            Some(_) => true,
            None => false,
        };
    }
    false
}

/// The SHA-256 digest of a byte sequence.
pub uninterp spec fn sha256_of(bytes: Seq<u8>) -> Seq<u8>;

/// Relies on sha2's Sha256: the digest is a function of the bytes alone,
/// thirty-two bytes long.
#[verifier::external_body]
fn sha256_bytes(b: &[u8]) -> (r: Vec<u8>)
    ensures
        r@ == sha256_of(b@),
        r@.len() == 32,
{
    sha2::Sha256::digest(b).to_vec()
}

/// One lowercase hexadecimal digit.
pub open spec fn hex_digit_char(d: int) -> char {
    if d < 10 {
        ((48 + d) as u8) as char
    } else {
        ((87 + d) as u8) as char
    }
}

/// The lowercase hexadecimal text of a byte sequence: two digits per byte,
/// high digit first.
pub open spec fn hex_of(bytes: Seq<u8>) -> Seq<char>
    decreases bytes.len(),
{
    if bytes.len() == 0 {
        Seq::empty()
    } else {
        seq![hex_digit_char(bytes[0] as int / 16), hex_digit_char(bytes[0] as int % 16)] + hex_of(
            bytes.skip(1),
        )
    }
}

/// The hex text is twice as long as the bytes.
pub proof fn lemma_hex_of_len(bytes: Seq<u8>)
    ensures
        hex_of(bytes).len() == 2 * bytes.len(),
    decreases bytes.len(),
{
    if bytes.len() > 0 {
        lemma_hex_of_len(bytes.skip(1));
    }
}

/// Relies on hex::encode: exactly the lowercase digit pairs that `hex_of`
/// states.
#[verifier::external_body]
fn hex_encode(b: &[u8]) -> (r: String)
    ensures
        r@ == hex_of(b@),
{
    hex::encode(b)
}

/// The cache-directory name of a repository: the hex form of the SHA-256
/// digest of its URL, so that one URL always maps to one local clone.
pub fn git_cache_dir_name(repo_url: &str) -> (r: String)
    ensures
        r@ == hex_of(sha256_of(vstd::utf8::encode_utf8(repo_url@))),
        r@.len() == 64,
{
    let digest = sha256_bytes(repo_url.as_bytes());
    proof {
        lemma_hex_of_len(digest@);
    }
    hex_encode(digest.as_slice())
}

/// Whether a commit is among the known ones: the membership decision that
/// gates a git-mode read before any work is done.
pub fn commit_known(commits: &Vec<String>, commit: &str) -> (r: bool)
    ensures
        r == crate::strutil::string_views(commits@).contains(commit@),
{
    let ghost cv = crate::strutil::string_views(commits@);
    let n = commits.len();
    let mut i: usize = 0;
    while i < n
        invariant
            0 <= i <= n,
            n == commits@.len(),
            cv == crate::strutil::string_views(commits@),
            cv.len() == n,
            forall|j: int| 0 <= j < i ==> cv[j] != commit@,
        decreases n - i,
    {
        if crate::strutil::str_eq(commits[i].as_str(), commit) {
            proof {
                assert(cv[i as int] == commit@);
            }
            return true;
        }
        i += 1;
    }
    proof {
        assert(!cv.contains(commit@)) by {
            if cv.contains(commit@) {
                let w = choose|w: int| 0 <= w < cv.len() && cv[w] == commit@;
                assert(cv[w] != commit@);
            }
        }
    }
    false
}

/// Credentials of a remote repository.
#[derive(Debug)]
pub struct Creds {
    pub username: String,
    pub password: String,
}

impl Creds {
    /// Credentials from a username and a password or token.
    pub fn new(username: String, password: String) -> (r: Creds)
        ensures
            r.username@ == username@,
            r.password@ == password@,
    {
        Creds { username, password }
    }
}

impl Clone for Creds {
    /// A copy with the same fields.
    fn clone(&self) -> (r: Creds)
        ensures
            r.username@ == self.username@,
            r.password@ == self.password@,
    {
        Creds { username: self.username.clone(), password: self.password.clone() }
    }
}

} // verus!
