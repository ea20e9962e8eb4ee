use vstd::prelude::*;
use vstd::string::StrSliceExecFns;
use vstd::string::StringExecFns;

use crate::channel::is_alphanumeric_char;
use crate::channel::is_lower_hex_char;
use crate::channel::sha256_hex_of;
use crate::channel::spec_verify_password;
use crate::channel::ChannelData;
use crate::channel::ChannelDataView;
use crate::channel::ChannelFile;
use crate::channel::ChannelFileView;
use crate::channel::StoredChannel;
use crate::channel::StoredChannelView;
use crate::channel::generate_channel_id;
use crate::channel::generate_channel_password;
use crate::channel::hash_channel_password;
use crate::channel::verify_channel_password;
use crate::channel::CHANNEL_PASSWORD_LENGTH;
use crate::codec::deserialize_channel;
use crate::codec::serialize_channel;
use crate::codec::spec_deserialize;
use crate::codec::spec_serialize;
use crate::error::ChannelError;
use crate::validate::spec_validate;
use crate::validate::validate_channel_data;
use crate::MAX_CHANNEL_BYTES;

verus! {

/// Body of a creation request: optional text and the attached files.
#[derive(Debug)]
pub struct CreateChannelRequest {
    pub text: Option<String>,
    pub files: Vec<ChannelFile>,
}

/// Answer to a creation: the fresh identifier, the plaintext password
/// where protection is enabled (returned exactly once), and the lifetime.
#[derive(Debug)]
pub struct CreateChannelResponse {
    pub id: String,
    pub password: Option<String>,
    pub ttl_seconds: u64,
}

/// Answer to a fetch: the channel body and the lifetime that was left
/// before this read refreshed it.
#[derive(Debug)]
pub struct ChannelPayloadResponse {
    pub id: String,
    pub text: String,
    pub files: Vec<ChannelFile>,
    pub ttl_seconds: i64,
}

/// Body of an update request: the full replacement channel body.
#[derive(Debug)]
pub struct UpdateChannelRequest {
    pub text: String,
    pub files: Vec<ChannelFile>,
}

/// Everything a creation decides: what to answer the caller and the single
/// store write that persists the record under `key` for `ttl_seconds`.
#[derive(Debug)]
pub struct CreatedChannel {
    pub id: String,
    pub password: Option<String>,
    pub key: String,
    pub value: String,
    pub ttl_seconds: u64,
}

/// The channel body a request describes: missing text means empty text.
pub open spec fn spec_data_of_request(
    text: Option<Seq<char>>,
    files: Seq<ChannelFileView>,
) -> ChannelDataView {
    ChannelDataView {
        text: match text {
            Option::Some(t) => t,
            Option::None => Seq::empty(),
        },
        files,
    }
}

/// Store key of a channel: the fixed prefix plus the identifier.
pub fn channel_key(id: &str) -> (r: String)
    ensures
        r@ == "channel:"@ + id@,
{
    let mut k = String::from_str("channel:");
    k.append(id);
    k
}

/// Decides a creation: builds the channel body, validates it, hashes the
/// fresh password where protection is asked for, and renders the store
/// value.  The write itself is the caller's: `key` is to be set to `value`
/// with an expiry of `ttl_seconds`.
pub fn create_channel(req: CreateChannelRequest, protect: bool, ttl_seconds: u64) -> (r: Result<
    CreatedChannel,
    ChannelError,
>)
    ensures
        ({
            let dv = spec_data_of_request(
                req.text.deep_view(),
                req.files@.map_values(|f: ChannelFile| f@),
            );
            &&& (r is Ok <==> spec_validate(dv, MAX_CHANNEL_BYTES as int) is Ok)
            &&& (r is Err ==> r->Err_0 == spec_validate(dv, MAX_CHANNEL_BYTES as int)->Err_0)
            &&& (r is Ok ==> ({
                let c = r->Ok_0;
                &&& c.id@.len() == 8
                &&& (forall|i: int| 0 <= i < 8 ==> is_lower_hex_char(#[trigger] c.id@[i]))
                &&& c.key@ == "channel:"@ + c.id@
                &&& c.ttl_seconds == ttl_seconds
                &&& (protect ==> c.password is Some && c.password->0@.len()
                    == CHANNEL_PASSWORD_LENGTH && (forall|i: int|
                    0 <= i < c.password->0@.len() ==> is_alphanumeric_char(
                        #[trigger] c.password->0@[i],
                    )) && c.value@ == spec_serialize(
                    StoredChannelView {
                        password_hash: Option::Some(sha256_hex_of(c.password->0@)),
                        data: dv,
                    },
                ))
                &&& (!protect ==> c.password is None && c.value@ == spec_serialize(
                    StoredChannelView { password_hash: Option::None, data: dv },
                ))
            }))
        }),
{
    let CreateChannelRequest { text, files } = req;
    let text = match text {
        Option::Some(t) => t,
        Option::None => String::new(),
    };
    let data = ChannelData { text, files };
    match validate_channel_data(&data) {
        Result::Err(e) => {
            return Result::Err(e);
        },
        Result::Ok(_) => {},
    }
    let id = generate_channel_id();
    let key = channel_key(id.as_str());
    if protect {
        let password = generate_channel_password();
        let hash = hash_channel_password(password.as_str());
        let record = StoredChannel { password_hash: Option::Some(hash), data };
        let value = serialize_channel(&record);
        Result::Ok(
            CreatedChannel { id, password: Option::Some(password), key, value, ttl_seconds },
        )
    } else {
        let record = StoredChannel { password_hash: Option::None, data };
        let value = serialize_channel(&record);
        Result::Ok(CreatedChannel { id, password: Option::None, key, value, ttl_seconds })
    }
}

/// Gate shared by fetch and update: interprets the store's answer for a
/// channel key and checks the password before anything is disclosed or
/// changed.  An absent value is a missing channel; a mismatch discloses
/// nothing.
pub fn open_channel(raw: Option<String>, provided: Option<&str>) -> (r: Result<
    StoredChannel,
    ChannelError,
>)
    ensures
        raw is None ==> r is Err && r->Err_0 == ChannelError::ChannelNotFound,
        raw is Some ==> ({
            let rec = spec_deserialize(raw->0@);
            &&& (spec_verify_password(rec.password_hash, provided.deep_view()) ==> r is Ok
                && r->Ok_0@ == rec)
            &&& (!spec_verify_password(rec.password_hash, provided.deep_view()) ==> r is Err
                && r->Err_0 == ChannelError::InvalidChannelPassword)
        }),
{
    match raw {
        Option::None => Result::Err(ChannelError::ChannelNotFound),
        Option::Some(s) => {
            let rec = deserialize_channel(s);
            let stored: Option<&str> = match &rec.password_hash {
                Option::Some(h) => Option::Some(h.as_str()),
                Option::None => Option::None,
            };
            if verify_channel_password(stored, provided) {
                Result::Ok(rec)
            } else {
                Result::Err(ChannelError::InvalidChannelPassword)
            }
        },
    }
}

/// The lifetime a fetch reports: the store's answer where it is
/// nonnegative, else the configured duration.
pub open spec fn spec_clamp_ttl(reported: Option<i64>, default_ttl: u64) -> i64 {
    match reported {
        Option::Some(t) => if t < 0 {
            default_ttl as i64
        } else {
            t
        },
        Option::None => default_ttl as i64,
    }
}

/// Clamps the lifetime the store reports: a store that cannot answer, or
/// answers negative (expired or without expiry), falls back to the
/// configured duration rather than surfacing a negative value.
pub fn clamp_ttl(reported: Option<i64>, default_ttl: u64) -> (r: i64)
    requires
        default_ttl <= i64::MAX as u64,
    ensures
        r == spec_clamp_ttl(reported, default_ttl),
{
    match reported {
        Option::Some(t) => if t < 0 {
            default_ttl as i64
        } else {
            t
        },
        Option::None => default_ttl as i64,
    }
}

/// Decides an update of an opened channel: validates the replacement body
/// and renders the new store value, keeping the password hash exactly as
/// it was — an update can never add, remove or change protection.
pub fn update_channel(record: StoredChannel, req: UpdateChannelRequest) -> (r: Result<
    String,
    ChannelError,
>)
    ensures
        ({
            let dv = ChannelDataView {
                text: req.text@,
                files: req.files@.map_values(|f: ChannelFile| f@),
            };
            &&& (r is Ok <==> spec_validate(dv, MAX_CHANNEL_BYTES as int) is Ok)
            &&& (r is Err ==> r->Err_0 == spec_validate(dv, MAX_CHANNEL_BYTES as int)->Err_0)
            &&& (r is Ok ==> r->Ok_0@ == spec_serialize(
                StoredChannelView { password_hash: record@.password_hash, data: dv },
            ))
        }),
{
    let UpdateChannelRequest { text, files } = req;
    let data = ChannelData { text, files };
    match validate_channel_data(&data) {
        Result::Err(e) => {
            return Result::Err(e);
        },
        Result::Ok(_) => {},
    }
    let updated = StoredChannel { password_hash: record.password_hash, data };
    Result::Ok(serialize_channel(&updated))
}

/// Index of the first file with the given identifier, or the length where
/// none matches.
pub open spec fn spec_first_match(files: Seq<ChannelFileView>, id: Seq<char>) -> int
    decreases files.len(),
{
    if files.len() == 0 {
        0
    } else if files[0].id == id {
        0
    } else {
        1 + spec_first_match(files.drop_first(), id)
    }
}

fn str_eq(a: &str, b: &str) -> (r: bool)
    ensures
        r == (a@ == b@),
{
    broadcast use vstd::slice::axiom_spec_len;

    let ab = a.as_bytes();
    let bb = b.as_bytes();
    proof {
        vstd::utf8::encode_utf8_decode_utf8(a@);
        vstd::utf8::encode_utf8_decode_utf8(b@);
    }
    if ab.len() != bb.len() {
        return false;
    }
    let n = ab.len();
    let mut i: usize = 0;
    while i < n
        invariant
            n == ab@.len() == bb@.len(),
            i <= n,
            ab@ == vstd::utf8::encode_utf8(a@),
            bb@ == vstd::utf8::encode_utf8(b@),
            vstd::utf8::decode_utf8(vstd::utf8::encode_utf8(a@)) == a@,
            vstd::utf8::decode_utf8(vstd::utf8::encode_utf8(b@)) == b@,
            forall|j: int| 0 <= j < i ==> ab@[j] == bb@[j],
        decreases n - i,
    {
        if ab[i] != bb[i] {
            return false;
        }
        i += 1;
    }
    proof {
        assert(ab@ =~= bb@);
    }
    true
}

/// Index of the first file with the given identifier, if any.
fn find_file(files: &Vec<ChannelFile>, file_id: &str) -> (r: Option<usize>)
    ensures
        ({
            let fv = files@.map_values(|f: ChannelFile| f@);
            let idx = spec_first_match(fv, file_id@);
            &&& (r is Some <==> idx < fv.len())
            &&& (r is Some ==> r->0 == idx)
        }),
{
    let ghost fv = files@.map_values(|f: ChannelFile| f@);
    let n = files.len();
    let mut i: usize = 0;
    proof {
        lemma_first_match_bound(fv, file_id@);
    }
    while i < n
        invariant
            i <= n,
            n == files.len(),
            fv == files@.map_values(|f: ChannelFile| f@),
            spec_first_match(fv, file_id@) >= i,
        decreases n - i,
    {
        if str_eq(files[i].id.as_str(), file_id) {
            proof {
                lemma_first_match_hit(fv, file_id@, i as int);
            }
            return Option::Some(i);
        }
        proof {
            lemma_first_match_step(fv, file_id@, i as int);
        }
        i += 1;
    }
    proof {
        lemma_first_match_bound(fv, file_id@);
    }
    Option::None
}

/// Removes one attachment from an opened channel: the first file bearing
/// the identifier leaves the list, everything else — the other files,
/// their order, the text, the password hash — stays.  A channel without
/// that file is left unchanged and the caller is told so.
pub fn delete_channel_file(record: &mut StoredChannel, file_id: &str) -> (r: Result<
    (),
    ChannelError,
>)
    ensures
        ({
            let files = old(record)@.data.files;
            let idx = spec_first_match(files, file_id@);
            &&& (idx == files.len() ==> r is Err && r->Err_0 == ChannelError::FileNotFound
                && final (record)@ == old(record)@)
            &&& (idx < files.len() ==> r is Ok && final (record)@ == (StoredChannelView {
                password_hash: old(record)@.password_hash,
                data: ChannelDataView { text: old(record)@.data.text, files: files.remove(idx) },
            }))
        }),
{
    match find_file(&record.data.files, file_id) {
        Option::Some(i) => {
            record.data.files.remove(i);
            proof {
                let fv = old(record)@.data.files;
                let idx = spec_first_match(fv, file_id@);
                assert(record@.data.files =~= fv.remove(idx));
                assert(record@ =~~= (StoredChannelView {
                    password_hash: old(record)@.password_hash,
                    data: ChannelDataView {
                        text: old(record)@.data.text,
                        files: fv.remove(idx),
                    },
                }));
            }
            Result::Ok(())
        },
        Option::None => Result::Err(ChannelError::FileNotFound),
    }
}

proof fn lemma_first_match_bound(files: Seq<ChannelFileView>, id: Seq<char>)
    ensures
        0 <= spec_first_match(files, id) <= files.len(),
        spec_first_match(files, id) < files.len() ==> files[spec_first_match(files, id)].id
            == id,
    decreases files.len(),
{
    if files.len() > 0 && files[0].id != id {
        lemma_first_match_bound(files.drop_first(), id);
    }
}

/// If no file before `i` matches and `files[i]` matches, the first match
/// is `i`.
proof fn lemma_first_match_hit(files: Seq<ChannelFileView>, id: Seq<char>, i: int)
    requires
        0 <= i < files.len(),
        files[i].id == id,
        spec_first_match(files, id) >= i,
    ensures
        spec_first_match(files, id) == i,
    decreases i,
{
    if i > 0 {
        assert(files[0].id != id) by {
            lemma_first_match_bound(files, id);
        }
        lemma_first_match_hit(files.drop_first(), id, i - 1);
    } else {
        if files[0].id != id {
            lemma_first_match_bound(files.drop_first(), id);
        }
    }
}

/// If the first match is at or past `i` and `files[i]` does not match, it
/// is past `i`.
proof fn lemma_first_match_step(files: Seq<ChannelFileView>, id: Seq<char>, i: int)
    requires
        0 <= i < files.len(),
        files[i].id != id,
        spec_first_match(files, id) >= i,
    ensures
        spec_first_match(files, id) >= i + 1,
    decreases i,
{
    if i > 0 {
        lemma_first_match_step(files.drop_first(), id, i - 1);
    } else {
        lemma_first_match_bound(files.drop_first(), id);
    }
}

/// Assembles the answer to a successful fetch.
pub fn payload_response(id: String, data: ChannelData, ttl_seconds: i64) -> (r:
    ChannelPayloadResponse)
    ensures
        r.id@ == id@,
        r.text@ == data@.text,
        r.files@.map_values(|f: ChannelFile| f@) == data@.files,
        r.ttl_seconds == ttl_seconds,
{
    let ChannelData { text, files } = data;
    ChannelPayloadResponse { id, text, files, ttl_seconds }
}

/// Assembles the answer to a successful creation.
pub fn create_response(c: &CreatedChannel) -> (r: CreateChannelResponse)
    ensures
        r.id@ == c.id@,
        r.password is Some <==> c.password is Some,
        r.password is Some ==> r.password->0@ == c.password->0@,
        r.ttl_seconds == c.ttl_seconds,
{
    let password = match &c.password {
        Option::Some(p) => Option::Some(p.clone()),
        Option::None => Option::None,
    };
    CreateChannelResponse { id: c.id.clone(), password, ttl_seconds: c.ttl_seconds }
}

} // verus!
