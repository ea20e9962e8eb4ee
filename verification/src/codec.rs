use vstd::prelude::*;
use vstd::std_specs::iter::IteratorSpec;
use vstd::string::StrSliceExecFns;
use vstd::string::StringExecFns;

use crate::channel::ChannelData;
use crate::channel::ChannelDataView;
use crate::channel::ChannelFile;
use crate::channel::ChannelFileView;
use crate::channel::StoredChannel;
use crate::channel::StoredChannelView;
use crate::hexnum::hex16;
use crate::hexnum::lemma_hex16_roundtrip;
use crate::hexnum::lemma_parse_hex16_of_ser;
use crate::hexnum::parse_hex16;
use crate::hexnum::spec_hex16;
use crate::hexnum::spec_parse_hex16;

verus! {

/// Marker that opens every structured record.
pub open spec fn spec_header() -> Seq<char> {
    seq!['c', 'h', '1', '|']
}

/// Length-prefixed text: sixteen hexadecimal characters, then the text
/// itself.
pub open spec fn spec_ser_lstr(s: Seq<char>) -> Seq<char> {
    spec_hex16(s.len() as u64) + s
}

/// Optional password hash: `n` alone, or `h` followed by the hash.
pub open spec fn spec_ser_hash(h: Option<Seq<char>>) -> Seq<char> {
    match h {
        Option::None => seq!['n'],
        Option::Some(s) => seq!['h'] + spec_ser_lstr(s),
    }
}

/// One attachment: its four texts length-prefixed, the declared size as a
/// fixed-width number.
pub open spec fn spec_ser_file(f: ChannelFileView) -> Seq<char> {
    spec_ser_lstr(f.id) + spec_ser_lstr(f.name) + spec_ser_lstr(f.mime_type) + spec_hex16(f.size)
        + spec_ser_lstr(f.data_base64)
}

pub open spec fn spec_ser_files(fs: Seq<ChannelFileView>) -> Seq<char>
    decreases fs.len(),
{
    if fs.len() == 0 {
        Seq::empty()
    } else {
        spec_ser_file(fs[0]) + spec_ser_files(fs.drop_first())
    }
}

/// The canonical persisted form of a record: header, hash, text, file
/// count, then the files in order.
pub open spec fn spec_serialize(x: StoredChannelView) -> Seq<char> {
    spec_header() + spec_ser_hash(x.password_hash) + spec_ser_lstr(x.data.text) + spec_hex16(
        x.data.files.len() as u64,
    ) + spec_ser_files(x.data.files)
}

/// A record whose every piece can exist in memory.
pub open spec fn wf_file(f: ChannelFileView) -> bool {
    &&& f.id.len() <= usize::MAX
    &&& f.name.len() <= usize::MAX
    &&& f.mime_type.len() <= usize::MAX
    &&& f.data_base64.len() <= usize::MAX
}

pub open spec fn wf_stored(x: StoredChannelView) -> bool {
    &&& (x.password_hash is Some ==> x.password_hash->0.len() <= usize::MAX)
    &&& x.data.text.len() <= usize::MAX
    &&& x.data.files.len() <= usize::MAX
    &&& forall|i: int| 0 <= i < x.data.files.len() ==> wf_file(#[trigger] x.data.files[i])
}

proof fn lemma_ser_files_snoc(fs: Seq<ChannelFileView>, i: int)
    requires
        0 <= i < fs.len(),
    ensures
        spec_ser_files(fs.take(i + 1)) == spec_ser_files(fs.take(i)) + spec_ser_file(fs[i]),
    decreases i,
{
    if i == 0 {
        let one = fs.take(1);
        assert(one.len() == 1);
        assert(one[0] == fs[0]);
        assert(one.drop_first() =~= Seq::<ChannelFileView>::empty());
        assert(spec_ser_files(one.drop_first()) == Seq::<char>::empty());
        assert(spec_ser_files(one) == spec_ser_file(fs[0]) + Seq::<char>::empty());
        assert(fs.take(0) =~= Seq::<ChannelFileView>::empty());
        assert(spec_ser_files(fs.take(1)) =~= spec_ser_files(fs.take(0)) + spec_ser_file(fs[0]));
    } else {
        let rest = fs.drop_first();
        lemma_ser_files_snoc(rest, i - 1);
        assert(fs.take(i + 1).drop_first() =~= rest.take(i));
        assert(fs.take(i).drop_first() =~= rest.take(i - 1));
        assert(fs.take(i + 1)[0] == fs[0]);
        assert(fs.take(i)[0] == fs[0]);
        assert(spec_ser_files(fs.take(i + 1)) == spec_ser_file(fs[0]) + spec_ser_files(
            rest.take(i),
        ));
        assert(spec_ser_files(fs.take(i)) == spec_ser_file(fs[0]) + spec_ser_files(
            rest.take(i - 1),
        ));
        assert(rest[i - 1] == fs[i]);
        assert(spec_ser_file(fs[0]) + (spec_ser_files(rest.take(i - 1)) + spec_ser_file(fs[i]))
            =~= (spec_ser_file(fs[0]) + spec_ser_files(rest.take(i - 1))) + spec_ser_file(fs[i]));
    }
}

fn append_lstr(out: &mut String, s: &str)
    ensures
        final (out)@ == old(out)@ + spec_ser_lstr(s@),
{
    let n = s.unicode_len();
    let h = hex16(n as u64);
    out.append(h.as_str());
    out.append(s);
    proof {
        assert(final (out)@ =~= old(out)@ + spec_ser_lstr(s@));
    }
}

fn append_file(out: &mut String, f: &ChannelFile)
    ensures
        final (out)@ == old(out)@ + spec_ser_file(f@),
{
    append_lstr(out, f.id.as_str());
    append_lstr(out, f.name.as_str());
    append_lstr(out, f.mime_type.as_str());
    let h = hex16(f.size);
    out.append(h.as_str());
    append_lstr(out, f.data_base64.as_str());
    proof {
        assert(final (out)@ =~= old(out)@ + spec_ser_file(f@));
    }
}

/// Writes the canonical textual encoding of a record.  For well-formed
/// in-memory data this always succeeds.
pub fn serialize_channel(x: &StoredChannel) -> (r: String)
    ensures
        r@ == spec_serialize(x@),
{
    let mut out = String::from_str("ch1|");
    proof {
        reveal_strlit("ch1|");
        assert(out@ =~= spec_header());
    }
    match &x.password_hash {
        Option::None => {
            out.append("n");
            proof {
                reveal_strlit("n");
                assert(out@ =~= spec_header() + spec_ser_hash(x@.password_hash));
            }
        },
        Option::Some(h) => {
            out.append("h");
            append_lstr(&mut out, h.as_str());
            proof {
                reveal_strlit("h");
                assert(out@ =~= spec_header() + spec_ser_hash(x@.password_hash));
            }
        },
    }
    append_lstr(&mut out, x.data.text.as_str());
    let count = x.data.files.len();
    let count_hex = hex16(count as u64);
    out.append(count_hex.as_str());
    let ghost base = spec_header() + spec_ser_hash(x@.password_hash) + spec_ser_lstr(x@.data.text)
        + spec_hex16(x@.data.files.len() as u64);
    proof {
        assert(out@ =~= base);
    }
    let mut i: usize = 0;
    while i < count
        invariant
            count == x.data.files.len(),
            i <= count,
            x@.data.files == x.data.files@.map_values(|f: ChannelFile| f@),
            out@ == base + spec_ser_files(x@.data.files.take(i as int)),
        decreases count - i,
    {
        append_file(&mut out, &x.data.files[i]);
        proof {
            lemma_ser_files_snoc(x@.data.files, i as int);
            assert(x@.data.files[i as int] == x.data.files@[i as int]@);
            assert(out@ =~= base + spec_ser_files(x@.data.files.take(i as int + 1)));
        }
        i += 1;
    }
    proof {
        assert(x@.data.files.take(count as int) =~= x@.data.files);
        assert(out@ =~= spec_serialize(x@));
    }
    out
}

/// Reading a length-prefixed text at `p`.
pub open spec fn spec_parse_lstr(s: Seq<char>, p: int) -> Option<(Seq<char>, int)> {
    match spec_parse_hex16(s, p) {
        Option::None => Option::None,
        Option::Some((n, q)) => if n <= usize::MAX as u64 && q + (n as int) <= s.len() {
            Option::Some((s.subrange(q, q + (n as int)), q + (n as int)))
        } else {
            Option::None
        },
    }
}

/// Reading the optional password hash at `p`.
pub open spec fn spec_parse_hash(s: Seq<char>, p: int) -> Option<(Option<Seq<char>>, int)> {
    if 0 <= p < s.len() {
        if s[p] == 'n' {
            Option::Some((Option::None, p + 1))
        } else if s[p] == 'h' {
            match spec_parse_lstr(s, p + 1) {
                Option::Some((h, q)) => Option::Some((Option::Some(h), q)),
                Option::None => Option::None,
            }
        } else {
            Option::None
        }
    } else {
        Option::None
    }
}

/// Reading one attachment at `p`.
pub open spec fn spec_parse_file(s: Seq<char>, p: int) -> Option<(ChannelFileView, int)> {
    match spec_parse_lstr(s, p) {
        Option::None => Option::None,
        Option::Some((id, p1)) => match spec_parse_lstr(s, p1) {
            Option::None => Option::None,
            Option::Some((name, p2)) => match spec_parse_lstr(s, p2) {
                Option::None => Option::None,
                Option::Some((mime, p3)) => match spec_parse_hex16(s, p3) {
                    Option::None => Option::None,
                    Option::Some((size, p4)) => match spec_parse_lstr(s, p4) {
                        Option::None => Option::None,
                        Option::Some((data, p5)) => Option::Some(
                            (
                                ChannelFileView {
                                    id: id,
                                    name: name,
                                    mime_type: mime,
                                    size: size,
                                    data_base64: data,
                                },
                                p5,
                            ),
                        ),
                    },
                },
            },
        },
    }
}

/// Reading `k` attachments in order, starting at `p`.
pub open spec fn spec_parse_files(s: Seq<char>, p: int, k: nat) -> Option<
    (Seq<ChannelFileView>, int),
>
    decreases k,
{
    if k == 0 {
        Option::Some((Seq::empty(), p))
    } else {
        match spec_parse_file(s, p) {
            Option::None => Option::None,
            Option::Some((f, q)) => match spec_parse_files(s, q, (k - 1) as nat) {
                Option::None => Option::None,
                Option::Some((fs, e)) => Option::Some((seq![f] + fs, e)),
            },
        }
    }
}

/// Reading a whole structured record: header, every piece in order, and
/// nothing after them.
pub open spec fn spec_parse_stored(s: Seq<char>) -> Option<StoredChannelView> {
    if s.len() >= 4 && s.subrange(0, 4) == spec_header() {
        match spec_parse_hash(s, 4) {
            Option::None => Option::None,
            Option::Some((h, p1)) => match spec_parse_lstr(s, p1) {
                Option::None => Option::None,
                Option::Some((text, p2)) => match spec_parse_hex16(s, p2) {
                    Option::None => Option::None,
                    Option::Some((count, p3)) => if count <= usize::MAX as u64 {
                        match spec_parse_files(s, p3, count as nat) {
                            Option::None => Option::None,
                            Option::Some((fs, e)) => if e == s.len() {
                                Option::Some(
                                    StoredChannelView {
                                        password_hash: h,
                                        data: ChannelDataView { text: text, files: fs },
                                    },
                                )
                            } else {
                                Option::None
                            },
                        }
                    } else {
                        Option::None
                    },
                },
            },
        }
    } else {
        Option::None
    }
}

/// What a persisted value means: a structured record where one can be
/// read, else the whole value as unprotected legacy text.
pub open spec fn spec_deserialize(s: Seq<char>) -> StoredChannelView {
    match spec_parse_stored(s) {
        Option::Some(x) => x,
        Option::None => StoredChannelView {
            password_hash: Option::None,
            data: ChannelDataView { text: s, files: Seq::empty() },
        },
    }
}

proof fn lemma_chunk_split(s: Seq<char>, p: int, a: Seq<char>, b: Seq<char>)
    requires
        0 <= p,
        p + a.len() + b.len() <= s.len(),
        s.subrange(p, p + a.len() + b.len()) == a + b,
    ensures
        s.subrange(p, p + a.len()) == a,
        s.subrange(p + a.len(), p + a.len() + b.len()) == b,
{
    let whole = s.subrange(p, p + a.len() + b.len());
    assert forall|i: int| 0 <= i < a.len() implies s.subrange(p, p + a.len())[i] == a[i] by {
        assert(whole[i] == (a + b)[i]);
    }
    assert(s.subrange(p, p + a.len()) =~= a);
    assert forall|i: int|
        0 <= i < b.len() implies s.subrange(p + a.len(), p + a.len() + b.len())[i] == b[i] by {
        assert(whole[a.len() + i] == (a + b)[a.len() + i]);
    }
    assert(s.subrange(p + a.len(), p + a.len() + b.len()) =~= b);
}

proof fn lemma_parse_lstr_of_ser(s: Seq<char>, p: int, t: Seq<char>)
    requires
        0 <= p,
        t.len() <= usize::MAX,
        p + 16 + t.len() <= s.len(),
        s.subrange(p, p + 16 + t.len()) == spec_ser_lstr(t),
    ensures
        spec_parse_lstr(s, p) == Option::Some((t, p + 16 + t.len())),
{
    let n = t.len() as u64;
    lemma_hex16_roundtrip(n);
    lemma_chunk_split(s, p, spec_hex16(n), t);
    lemma_parse_hex16_of_ser(s, p, n);
}

proof fn lemma_parse_hash_of_ser(s: Seq<char>, p: int, h: Option<Seq<char>>)
    requires
        0 <= p,
        h is Some ==> h->0.len() <= usize::MAX,
        p + spec_ser_hash(h).len() <= s.len(),
        s.subrange(p, p + spec_ser_hash(h).len()) == spec_ser_hash(h),
    ensures
        spec_parse_hash(s, p) == Option::Some((h, p + spec_ser_hash(h).len())),
{
    match h {
        Option::None => {
            assert(s.subrange(p, p + 1)[0] == s[p]);
            assert(s[p] == 'n');
        },
        Option::Some(t) => {
            lemma_hex16_roundtrip(t.len() as u64);
            lemma_chunk_split(s, p, seq!['h'], spec_ser_lstr(t));
            assert(s.subrange(p, p + 1)[0] == s[p]);
            assert(s[p] == 'h');
            lemma_parse_lstr_of_ser(s, p + 1, t);
        },
    }
}

proof fn lemma_parse_file_of_ser(s: Seq<char>, p: int, f: ChannelFileView)
    requires
        wf_file(f),
        0 <= p,
        p + spec_ser_file(f).len() <= s.len(),
        s.subrange(p, p + spec_ser_file(f).len()) == spec_ser_file(f),
    ensures
        spec_parse_file(s, p) == Option::Some((f, p + spec_ser_file(f).len())),
{
    let a1 = spec_ser_lstr(f.id);
    let a2 = spec_ser_lstr(f.name);
    let a3 = spec_ser_lstr(f.mime_type);
    let a4 = spec_hex16(f.size);
    let a5 = spec_ser_lstr(f.data_base64);
    lemma_hex16_roundtrip(f.id.len() as u64);
    lemma_hex16_roundtrip(f.name.len() as u64);
    lemma_hex16_roundtrip(f.mime_type.len() as u64);
    lemma_hex16_roundtrip(f.size);
    lemma_hex16_roundtrip(f.data_base64.len() as u64);
    lemma_chunk_split(s, p, a1 + a2 + a3 + a4, a5);
    lemma_chunk_split(s, p, a1 + a2 + a3, a4);
    lemma_chunk_split(s, p, a1 + a2, a3);
    lemma_chunk_split(s, p, a1, a2);
    let p1 = p + a1.len();
    let p2 = p1 + a2.len();
    let p3 = p2 + a3.len();
    let p4 = p3 + a4.len();
    let p5 = p4 + a5.len();
    lemma_parse_lstr_of_ser(s, p, f.id);
    lemma_parse_lstr_of_ser(s, p1, f.name);
    lemma_parse_lstr_of_ser(s, p2, f.mime_type);
    lemma_parse_hex16_of_ser(s, p3, f.size);
    lemma_parse_lstr_of_ser(s, p4, f.data_base64);
}

proof fn lemma_parse_files_of_ser(s: Seq<char>, p: int, fs: Seq<ChannelFileView>)
    requires
        forall|i: int| 0 <= i < fs.len() ==> wf_file(#[trigger] fs[i]),
        0 <= p,
        p + spec_ser_files(fs).len() <= s.len(),
        s.subrange(p, p + spec_ser_files(fs).len()) == spec_ser_files(fs),
    ensures
        spec_parse_files(s, p, fs.len()) == Option::Some((fs, p + spec_ser_files(fs).len())),
    decreases fs.len(),
{
    if fs.len() == 0 {
        assert(fs =~= Seq::<ChannelFileView>::empty());
    } else {
        let rest = fs.drop_first();
        lemma_chunk_split(s, p, spec_ser_file(fs[0]), spec_ser_files(rest));
        lemma_parse_file_of_ser(s, p, fs[0]);
        let q = p + spec_ser_file(fs[0]).len();
        assert(forall|i: int| 0 <= i < rest.len() ==> wf_file(#[trigger] rest[i])) by {
            assert(forall|i: int| 0 <= i < rest.len() ==> rest[i] == fs[i + 1]);
        }
        lemma_parse_files_of_ser(s, q, rest);
        assert(seq![fs[0]] + rest =~= fs);
    }
}

proof fn lemma_parse_stored_of_ser(x: StoredChannelView)
    requires
        wf_stored(x),
    ensures
        spec_parse_stored(spec_serialize(x)) == Option::Some(x),
{
    let s = spec_serialize(x);
    let a1 = spec_header();
    let a2 = spec_ser_hash(x.password_hash);
    let a3 = spec_ser_lstr(x.data.text);
    let a4 = spec_hex16(x.data.files.len() as u64);
    let a5 = spec_ser_files(x.data.files);
    lemma_hex16_roundtrip(x.data.text.len() as u64);
    lemma_hex16_roundtrip(x.data.files.len() as u64);
    assert(s.subrange(0, s.len() as int) =~= s);
    lemma_chunk_split(s, 0, a1 + a2 + a3 + a4, a5);
    lemma_chunk_split(s, 0, a1 + a2 + a3, a4);
    lemma_chunk_split(s, 0, a1 + a2, a3);
    lemma_chunk_split(s, 0, a1, a2);
    let p1: int = a1.len() as int;
    let p2: int = p1 + a2.len();
    let p3: int = p2 + a3.len();
    let p4: int = p3 + a4.len();
    assert(s.subrange(0, 4) == spec_header());
    lemma_parse_hash_of_ser(s, 4, x.password_hash);
    lemma_parse_lstr_of_ser(s, p2, x.data.text);
    lemma_parse_hex16_of_ser(s, p3, x.data.files.len() as u64);
    lemma_parse_files_of_ser(s, p4, x.data.files);
    let parsed = spec_parse_stored(s)->0;
    assert(parsed =~~= x);
}

/// Round trip: reading back the canonical encoding of any well-formed
/// record yields that record again.
pub proof fn lemma_codec_roundtrip(x: StoredChannelView)
    requires
        wf_stored(x),
    ensures
        spec_deserialize(spec_serialize(x)) == x,
{
    lemma_parse_stored_of_ser(x);
}

fn chars_of(s: &str) -> (r: Vec<char>)
    ensures
        r@ == s@,
{
    broadcast use vstd::string::group_string_axioms;

    let mut it = s.chars();
    let mut r: Vec<char> = Vec::new();
    loop
        invariant
            r@ + it.remaining() == s@,
            it.decrease() is Some,
        decreases it.decrease()->0,
    {
        match it.next() {
            Option::Some(c) => {
                r.push(c);
                proof {
                    assert(r@ + it.remaining() =~= s@);
                }
            },
            Option::None => {
                proof {
                    assert(r@ =~= s@);
                }
                return r;
            },
        }
    }
}

fn parse_lstr_exec(raw: &str, cs: &Vec<char>, p: usize) -> (r: Option<(String, usize)>)
    requires
        cs@ == raw@,
        p <= cs.len(),
    ensures
        r is Some <==> spec_parse_lstr(raw@, p as int) is Some,
        r is Some ==> ({
            let (t, q) = spec_parse_lstr(raw@, p as int)->0;
            let (rt, rq) = r->0;
            rt@ == t && rq == q && rq <= cs.len()
        }),
{
    match parse_hex16(cs, p) {
        Option::None => Option::None,
        Option::Some((n, q)) => {
            if n > usize::MAX as u64 {
                return Option::None;
            }
            let nn = n as usize;
            if nn > cs.len() - q {
                return Option::None;
            }
            let sub = raw.substring_char(q, q + nn);
            Option::Some((String::from_str(sub), q + nn))
        },
    }
}

fn parse_hash_exec(raw: &str, cs: &Vec<char>, p: usize) -> (r: Option<(Option<String>, usize)>)
    requires
        cs@ == raw@,
        p <= cs.len(),
    ensures
        r is Some <==> spec_parse_hash(raw@, p as int) is Some,
        r is Some ==> ({
            let (h, q) = spec_parse_hash(raw@, p as int)->0;
            let (rh, rq) = r->0;
            rh.deep_view() == h && rq == q && rq <= cs.len()
        }),
{
    if p >= cs.len() {
        return Option::None;
    }
    let c = cs[p];
    if c == 'n' {
        Option::Some((Option::None, p + 1))
    } else if c == 'h' {
        match parse_lstr_exec(raw, cs, p + 1) {
            Option::Some((t, q)) => Option::Some((Option::Some(t), q)),
            Option::None => Option::None,
        }
    } else {
        Option::None
    }
}

fn parse_file_exec(raw: &str, cs: &Vec<char>, p: usize) -> (r: Option<(ChannelFile, usize)>)
    requires
        cs@ == raw@,
        p <= cs.len(),
    ensures
        r is Some <==> spec_parse_file(raw@, p as int) is Some,
        r is Some ==> ({
            let (f, q) = spec_parse_file(raw@, p as int)->0;
            let (rf, rq) = r->0;
            rf@ == f && rq == q && rq <= cs.len()
        }),
{
    let (id, p1) = match parse_lstr_exec(raw, cs, p) {
        Option::Some(v) => v,
        Option::None => {
            return Option::None;
        },
    };
    let (name, p2) = match parse_lstr_exec(raw, cs, p1) {
        Option::Some(v) => v,
        Option::None => {
            return Option::None;
        },
    };
    let (mime_type, p3) = match parse_lstr_exec(raw, cs, p2) {
        Option::Some(v) => v,
        Option::None => {
            return Option::None;
        },
    };
    let (size, p4) = match parse_hex16(cs, p3) {
        Option::Some(v) => v,
        Option::None => {
            return Option::None;
        },
    };
    let (data_base64, p5) = match parse_lstr_exec(raw, cs, p4) {
        Option::Some(v) => v,
        Option::None => {
            return Option::None;
        },
    };
    let f = ChannelFile { id, name, mime_type, size, data_base64 };
    proof {
        let (sf, sq) = spec_parse_file(raw@, p as int)->0;
        assert(f@ =~~= sf);
    }
    Option::Some((f, p5))
}

spec fn files_parse_cont(
    s: Seq<char>,
    p0: int,
    k0: nat,
    acc: Seq<ChannelFileView>,
    p: int,
    k: nat,
) -> bool {
    spec_parse_files(s, p0, k0) == (match spec_parse_files(s, p, k) {
        Option::Some((fs, e)) => Option::Some((acc + fs, e)),
        Option::None => Option::None,
    })
}

#[verifier::loop_isolation(false)]
fn parse_stored_exec(raw: &str, cs: &Vec<char>) -> (r: Option<StoredChannel>)
    requires
        cs@ == raw@,
    ensures
        r is Some <==> spec_parse_stored(raw@) is Some,
        r is Some ==> r->0@ == spec_parse_stored(raw@)->0,
{
    if cs.len() < 4 {
        return Option::None;
    }
    if !(cs[0] == 'c' && cs[1] == 'h' && cs[2] == '1' && cs[3] == '|') {
        proof {
            assert(raw@.subrange(0, 4)[0] == raw@[0]);
            assert(raw@.subrange(0, 4)[1] == raw@[1]);
            assert(raw@.subrange(0, 4)[2] == raw@[2]);
            assert(raw@.subrange(0, 4)[3] == raw@[3]);
        }
        return Option::None;
    }
    proof {
        assert(raw@.subrange(0, 4) =~= spec_header());
    }
    let (password_hash, p1) = match parse_hash_exec(raw, cs, 4) {
        Option::Some(v) => v,
        Option::None => {
            return Option::None;
        },
    };
    let (text, p2) = match parse_lstr_exec(raw, cs, p1) {
        Option::Some(v) => v,
        Option::None => {
            return Option::None;
        },
    };
    let (count, p3) = match parse_hex16(cs, p2) {
        Option::Some(v) => v,
        Option::None => {
            return Option::None;
        },
    };
    if count > usize::MAX as u64 {
        return Option::None;
    }
    let count_n = count as usize;
    let mut files: Vec<ChannelFile> = Vec::new();
    let mut p: usize = p3;
    let mut i: usize = 0;
    proof {
        if spec_parse_files(raw@, p3 as int, count as nat) is Some {
            let (fs, e) = spec_parse_files(raw@, p3 as int, count as nat)->0;
            assert(Seq::<ChannelFileView>::empty() + fs =~= fs);
        }
        assert(files@.map_values(|f: ChannelFile| f@) =~= Seq::<ChannelFileView>::empty());
    }
    while i < count_n
        invariant
            cs@ == raw@,
            p <= cs.len(),
            i <= count_n,
            count_n == count,
            files@.len() == i,
            files_parse_cont(
                raw@,
                p3 as int,
                count as nat,
                files@.map_values(|f: ChannelFile| f@),
                p as int,
                (count_n - i) as nat,
            ),
        decreases count_n - i,
    {
        let ghost acc = files@.map_values(|f: ChannelFile| f@);
        match parse_file_exec(raw, cs, p) {
            Option::Some((f, q)) => {
                proof {
                    let k = (count_n - i) as nat;
                    let (sf, sq) = spec_parse_file(raw@, p as int)->0;
                    assert(files@.push(f).map_values(|g: ChannelFile| g@) =~= acc + seq![f@]);
                    if spec_parse_files(raw@, q as int, (k - 1) as nat) is Some {
                        let (fs, e) = spec_parse_files(raw@, q as int, (k - 1) as nat)->0;
                        assert(acc + (seq![f@] + fs) =~= (acc + seq![f@]) + fs);
                    }
                }
                files.push(f);
                p = q;
                i += 1;
            },
            Option::None => {
                proof {
                    let k = (count_n - i) as nat;
                    assert(spec_parse_files(raw@, p as int, k) is None);
                }
                return Option::None;
            },
        }
    }
    if p != cs.len() {
        return Option::None;
    }
    let r = StoredChannel { password_hash, data: ChannelData { text, files } };
    proof {
        assert(r@ =~~= spec_parse_stored(raw@)->0);
    }
    Option::Some(r)
}

/// Reads a persisted value back into a record.  This never fails: a value
/// that does not read as a structured record is taken whole as unprotected
/// plain text, so corrupted or legacy data degrades instead of erroring.
pub fn deserialize_channel(raw: String) -> (r: StoredChannel)
    ensures
        r@ == spec_deserialize(raw@),
{
    let cs = chars_of(raw.as_str());
    match parse_stored_exec(raw.as_str(), &cs) {
        Option::Some(x) => x,
        Option::None => {
            let r = StoredChannel {
                password_hash: Option::None,
                data: ChannelData { text: raw, files: Vec::new() },
            };
            proof {
                assert(r@.data.files =~= Seq::<ChannelFileView>::empty());
                assert(r@ =~~= spec_deserialize(r.data.text@));
            }
            r
        },
    }
}

/// Legacy fallback: a value that does not open with the record header is
/// read as unprotected plain text with no files.
pub proof fn lemma_legacy_fallback(s: Seq<char>)
    requires
        s.len() < 4 || s.subrange(0, 4) != spec_header(),
    ensures
        spec_deserialize(s) == (StoredChannelView {
            password_hash: Option::None,
            data: ChannelDataView { text: s, files: Seq::empty() },
        }),
{
}

} // verus!
