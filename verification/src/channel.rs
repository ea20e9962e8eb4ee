use vstd::prelude::*;
use vstd::string::StrSliceExecFns;

verus! {

/// Length of every generated channel password.
pub const CHANNEL_PASSWORD_LENGTH: usize = 12;

/// One attachment of a channel.  `size` is the declared byte count and is
/// advisory; `data_base64` carries the binary content as base64 text.
#[derive(Debug, Clone, PartialEq, Eq)]
pub struct ChannelFile {
    pub id: String,
    pub name: String,
    pub mime_type: String,
    pub size: u64,
    pub data_base64: String,
}

/// The user-visible channel body: free text plus an ordered list of files.
#[derive(Debug, Clone, PartialEq, Eq)]
pub struct ChannelData {
    pub text: String,
    pub files: Vec<ChannelFile>,
}

/// The persisted record: an optional password hash plus the channel body.
/// An absent or empty hash means the channel is unprotected.
#[derive(Debug, Clone, PartialEq, Eq)]
pub struct StoredChannel {
    pub password_hash: Option<String>,
    pub data: ChannelData,
}

/// Mathematical model of a [`ChannelFile`].
#[verifier::ext_equal]
pub ghost struct ChannelFileView {
    pub id: Seq<char>,
    pub name: Seq<char>,
    pub mime_type: Seq<char>,
    pub size: u64,
    pub data_base64: Seq<char>,
}

/// Mathematical model of a [`ChannelData`].
#[verifier::ext_equal]
pub ghost struct ChannelDataView {
    pub text: Seq<char>,
    pub files: Seq<ChannelFileView>,
}

/// Mathematical model of a [`StoredChannel`].
#[verifier::ext_equal]
pub ghost struct StoredChannelView {
    pub password_hash: Option<Seq<char>>,
    pub data: ChannelDataView,
}

impl View for ChannelFile {
    type V = ChannelFileView;

    open spec fn view(&self) -> ChannelFileView {
        ChannelFileView {
            id: self.id@,
            name: self.name@,
            mime_type: self.mime_type@,
            size: self.size,
            data_base64: self.data_base64@,
        }
    }
}

impl View for ChannelData {
    type V = ChannelDataView;

    open spec fn view(&self) -> ChannelDataView {
        ChannelDataView {
            text: self.text@,
            files: self.files@.map_values(|f: ChannelFile| f@),
        }
    }
}

impl View for StoredChannel {
    type V = StoredChannelView;

    open spec fn view(&self) -> StoredChannelView {
        StoredChannelView {
            password_hash: match self.password_hash {
                Option::Some(ref h) => Option::Some(h@),
                Option::None => Option::None,
            },
            data: self.data@,
        }
    }
}

/// Lowercase hexadecimal digit.
pub open spec fn is_lower_hex_char(c: char) -> bool {
    ('0' as int) <= (c as int) <= ('9' as int) || ('a' as int) <= (c as int) <= ('f' as int)
}

/// ASCII letter or digit.
pub open spec fn is_alphanumeric_char(c: char) -> bool {
    ('0' as int) <= (c as int) <= ('9' as int) || ('a' as int) <= (c as int) <= ('z' as int)
        || ('A' as int) <= (c as int) <= ('Z' as int)
}

/// The lowercase hexadecimal SHA-256 digest of a text, as
/// [`hash_channel_password`] computes it.
pub uninterp spec fn sha256_hex_of(s: Seq<char>) -> Seq<char>;

/// Relies on uuid: `Uuid::new_v4().simple()` renders as 32 lowercase
/// hexadecimal characters; the identifier keeps the first 8.
#[verifier::external_body]
pub fn generate_channel_id() -> (r: String)
    ensures
        r@.len() == 8,
        forall|i: int| 0 <= i < 8 ==> is_lower_hex_char(#[trigger] r@[i]),
{
    let raw = uuid::Uuid::new_v4().simple().to_string();
    raw[..8].to_string()
}

/// Relies on rand: `Alphanumeric` samples uniformly from ASCII letters and
/// digits; twelve samples form the password.
#[verifier::external_body]
pub fn generate_channel_password() -> (r: String)
    ensures
        r@.len() == CHANNEL_PASSWORD_LENGTH,
        forall|i: int| 0 <= i < r@.len() ==> is_alphanumeric_char(#[trigger] r@[i]),
{
    rand::Rng::sample_iter(rand::thread_rng(), &rand::distributions::Alphanumeric)
        .map(char::from)
        .take(CHANNEL_PASSWORD_LENGTH)
        .collect()
}

/// Relies on sha2: SHA-256 yields a 32-byte digest that depends on the input
/// alone, and `{:x}` writes two lowercase hexadecimal characters per byte.
#[verifier::external_body]
pub fn hash_channel_password(password: &str) -> (r: String)
    ensures
        r@ == sha256_hex_of(password@),
        r@.len() == 64,
{
    let mut hasher = <sha2::Sha256 as sha2::Digest>::new();
    sha2::Digest::update(&mut hasher, password.as_bytes());
    format!("{:x}", sha2::Digest::finalize(hasher))
}

/// Relies on subtle: `ct_eq` on byte slices reports whether length and
/// contents are equal, taking time independent of where they differ.
#[verifier::external_body]
fn constant_time_bytes_eq(a: &[u8], b: &[u8]) -> (r: bool)
    ensures
        r == (a@ == b@),
{
    subtle::ConstantTimeEq::ct_eq(a, b).into()
}

/// Whether a stored hash admits the provided password: a missing or empty
/// hash admits everyone; otherwise the provided password must be present
/// and hash to the stored value.
pub open spec fn spec_verify_password(
    stored_hash: Option<Seq<char>>,
    provided: Option<Seq<char>>,
) -> bool {
    match stored_hash {
        Option::Some(h) => h.len() == 0 || (provided is Some && h == sha256_hex_of(
            provided->0,
        )),
        Option::None => true,
    }
}

/// Gatekeeper for fetch and update: constant-time comparison of the stored
/// hash against the hash of the provided password.
pub fn verify_channel_password(stored_hash: Option<&str>, provided: Option<&str>) -> (r: bool)
    ensures
        r == spec_verify_password(stored_hash.deep_view(), provided.deep_view()),
{
    match stored_hash {
        Option::Some(hash) => {
            if hash.is_empty() {
                true
            } else {
                match provided {
                    Option::Some(p) => {
                        let computed = hash_channel_password(p);
                        let r = constant_time_bytes_eq(
                            hash.as_bytes(),
                            computed.as_str().as_bytes(),
                        );
                        proof {
                            vstd::utf8::encode_utf8_decode_utf8(hash@);
                            vstd::utf8::encode_utf8_decode_utf8(computed@);
                        }
                        r
                    },
                    Option::None => false,
                }
            }
        },
        Option::None => true,
    }
}

/// Open-access default: a channel with no stored hash, or an empty one,
/// admits any caller, with or without a password.
pub proof fn lemma_open_access_default(provided: Option<Seq<char>>)
    ensures
        spec_verify_password(Option::None, provided),
        spec_verify_password(Option::Some(Seq::<char>::empty()), provided),
{
}

/// Verification accepts the password whose hash is stored: hashing is
/// deterministic, so the recomputed digest matches.
pub proof fn lemma_verify_accepts_own_hash(p: Seq<char>)
    ensures
        spec_verify_password(Option::Some(sha256_hex_of(p)), Option::Some(p)),
{
}

/// A protected channel rejects a caller that provides no password.
pub proof fn lemma_verify_rejects_missing_password(h: Seq<char>)
    requires
        h.len() != 0,
    ensures
        !spec_verify_password(Option::Some(h), Option::None),
{
}

/// A protected channel rejects a password whose digest differs from the
/// stored one.  (That two distinct passwords digest differently is exactly
/// SHA-256 collision resistance, which is assumed, not proved.)
pub proof fn lemma_verify_rejects_wrong_password(p: Seq<char>, q: Seq<char>)
    requires
        sha256_hex_of(p).len() != 0,
        sha256_hex_of(p) != sha256_hex_of(q),
    ensures
        !spec_verify_password(Option::Some(sha256_hex_of(p)), Option::Some(q)),
{
}

} // verus!
