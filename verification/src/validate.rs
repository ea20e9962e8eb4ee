use vstd::prelude::*;
use vstd::string::StringSliceAdditionalSpecFns;
use vstd::utf8::encode_utf8;

use crate::channel::ChannelData;
use crate::channel::ChannelDataView;
use crate::channel::ChannelFileView;
use crate::error::ChannelError;
use crate::MAX_CHANNEL_BYTES;

verus! {

/// What base64 text decodes to, or nothing where it is not valid base64,
/// as base64's standard alphabet with padding decides it.
pub uninterp spec fn b64_decoding(s: Seq<char>) -> Option<Seq<u8>>;

/// Relies on base64: decoding with the standard engine is a function of
/// the input text alone, and invalid text is rejected.
#[verifier::external_body]
fn decode_base64(s: &str) -> (r: Option<Vec<u8>>)
    ensures
        r is Some <==> b64_decoding(s@) is Some,
        r is Some ==> r->0@ == b64_decoding(s@)->0,
{
    base64::Engine::decode(&base64::engine::general_purpose::STANDARD, s).ok()
}

/// Scanning the files in order with a running total: the first file whose
/// content is not valid base64 fails the scan at once; otherwise each
/// decoded length is added, and a sum that cannot be held in memory is
/// already too large.
pub open spec fn spec_validate_files(files: Seq<ChannelFileView>, total: int) -> Result<
    int,
    ChannelError,
>
    decreases files.len(),
{
    if files.len() == 0 {
        Result::Ok(total)
    } else {
        match b64_decoding(files[0].data_base64) {
            Option::None => Result::Err(ChannelError::InvalidFileData),
            Option::Some(bytes) => if total + bytes.len() > usize::MAX {
                Result::Err(ChannelError::PayloadTooLarge)
            } else {
                spec_validate_files(files.drop_first(), total + bytes.len())
            },
        }
    }
}

/// The whole size rule: the UTF-8 byte length of the text plus every
/// decoded file length must not pass `max`.
pub open spec fn spec_validate(data: ChannelDataView, max: int) -> Result<(), ChannelError> {
    match spec_validate_files(data.files, encode_utf8(data.text).len() as int) {
        Result::Err(e) => Result::Err(e),
        Result::Ok(total) => if total > max {
            Result::Err(ChannelError::PayloadTooLarge)
        } else {
            Result::Ok(())
        },
    }
}

/// Whether every file's content is valid base64.
pub open spec fn all_files_decode(files: Seq<ChannelFileView>) -> bool {
    forall|i: int| 0 <= i < files.len() ==> b64_decoding(#[trigger] files[i].data_base64) is Some
}

/// Sum of the decoded lengths of the files' contents.
pub open spec fn decoded_total(files: Seq<ChannelFileView>) -> int
    decreases files.len(),
{
    if files.len() == 0 {
        0
    } else {
        match b64_decoding(files[0].data_base64) {
            Option::Some(bytes) => bytes.len() + decoded_total(files.drop_first()),
            Option::None => 0,
        }
    }
}

proof fn lemma_decoded_total_nonneg(files: Seq<ChannelFileView>)
    ensures
        decoded_total(files) >= 0,
    decreases files.len(),
{
    if files.len() > 0 {
        lemma_decoded_total_nonneg(files.drop_first());
    }
}

proof fn lemma_validate_files_total(files: Seq<ChannelFileView>, total: int)
    requires
        0 <= total,
        all_files_decode(files),
        total + decoded_total(files) <= usize::MAX,
    ensures
        spec_validate_files(files, total) == Result::<int, ChannelError>::Ok(
            total + decoded_total(files),
        ),
    decreases files.len(),
{
    if files.len() > 0 {
        let rest = files.drop_first();
        assert(all_files_decode(rest)) by {
            assert(forall|i: int| 0 <= i < rest.len() ==> rest[i] == files[i + 1]);
        }
        lemma_decoded_total_nonneg(rest);
        let bytes = b64_decoding(files[0].data_base64)->0;
        lemma_validate_files_total(rest, total + bytes.len());
    }
}

/// Size accounting: where every file decodes and the aggregate can exist
/// in memory, validation succeeds exactly when the UTF-8 length of the
/// text plus the decoded file bytes stays within the maximum, and one byte
/// over is rejected as too large.
pub proof fn lemma_size_accounting(data: ChannelDataView, max: int)
    requires
        all_files_decode(data.files),
        encode_utf8(data.text).len() + decoded_total(data.files) <= usize::MAX,
    ensures
        encode_utf8(data.text).len() + decoded_total(data.files) <= max ==> spec_validate(
            data,
            max,
        ) == Result::<(), ChannelError>::Ok(()),
        encode_utf8(data.text).len() + decoded_total(data.files) > max ==> spec_validate(
            data,
            max,
        ) == Result::<(), ChannelError>::Err(ChannelError::PayloadTooLarge),
{
    lemma_validate_files_total(data.files, encode_utf8(data.text).len() as int);
}

/// Malformed file data: a file whose content is not valid base64 fails
/// validation with the file-data error, whatever its declared size, where
/// every file before it decodes and fits.
pub proof fn lemma_malformed_file(files: Seq<ChannelFileView>, total: int, i: int)
    requires
        0 <= total,
        0 <= i < files.len(),
        b64_decoding(files[i].data_base64) is None,
        forall|j: int| 0 <= j < i ==> b64_decoding(#[trigger] files[j].data_base64) is Some,
        total + decoded_total(files.take(i)) <= usize::MAX,
    ensures
        spec_validate_files(files, total) == Result::<int, ChannelError>::Err(
            ChannelError::InvalidFileData,
        ),
    decreases i,
{
    if i > 0 {
        let rest = files.drop_first();
        let bytes = b64_decoding(files[0].data_base64)->0;
        assert(files.take(i)[0] == files[0]);
        assert(files.take(i).drop_first() =~= rest.take(i - 1));
        lemma_decoded_total_nonneg(rest.take(i - 1));
        assert(forall|j: int| 0 <= j < i - 1 ==> rest[j] == files[j + 1]);
        lemma_malformed_file(rest, total + bytes.len(), i - 1);
    }
}

/// Enforces the aggregate size rule before every write.  Pure: no store
/// access, no mutation of the data.
#[verifier::loop_isolation(false)]
pub fn validate_channel_data(data: &ChannelData) -> (r: Result<(), ChannelError>)
    ensures
        r == spec_validate(data@, MAX_CHANNEL_BYTES as int),
{
    broadcast use vstd::slice::axiom_spec_len;

    let text_bytes: &[u8] = data.text.as_str().as_bytes();
    let mut total: usize = text_bytes.len();
    let ghost files = data@.files;
    let mut i: usize = 0;
    proof {
        assert(files.skip(0) =~= files);
    }
    while i < data.files.len()
        invariant
            i <= data.files.len(),
            spec_validate_files(files, encode_utf8(data@.text).len() as int)
                == spec_validate_files(files.skip(i as int), total as int),
        decreases data.files.len() - i,
    {
        let ghost rest = files.skip(i as int);
        proof {
            assert(rest[0] == files[i as int]);
            assert(rest.drop_first() =~= files.skip(i as int + 1));
            assert(files[i as int] == data.files@[i as int]@);
        }
        match decode_base64(data.files[i].data_base64.as_str()) {
            Option::None => {
                return Result::Err(ChannelError::InvalidFileData);
            },
            Option::Some(bytes) => {
                match total.checked_add(bytes.len()) {
                    Option::None => {
                        return Result::Err(ChannelError::PayloadTooLarge);
                    },
                    Option::Some(t) => {
                        total = t;
                    },
                }
            },
        }
        i += 1;
    }
    proof {
        assert(files.skip(data.files.len() as int) =~= Seq::<ChannelFileView>::empty());
    }
    if total > MAX_CHANNEL_BYTES {
        return Result::Err(ChannelError::PayloadTooLarge);
    }
    Result::Ok(())
}

} // verus!
