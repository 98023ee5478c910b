use crate::archive::{byte_views, gunzip, gunzip_of};
use crate::error::Error;
use crate::header::{spec_decode_header, FileHeader, HEADER_SIZE};
use crate::record::{decode_all, spec_decode, Record};
use vstd::prelude::*;

verus! {

/// The bytes "chunk_" that open the name of every promoted chunk file.
pub open spec fn chunk_prefix() -> Seq<u8> {
    seq![0x63u8, 0x68u8, 0x75u8, 0x6eu8, 0x6bu8, 0x5fu8]
}

pub open spec fn is_digit(b: u8) -> bool {
    0x30 <= b <= 0x39
}

/// The value of a run of decimal digits.
pub open spec fn digits_value(s: Seq<u8>) -> nat
    decreases s.len(),
{
    if s.len() == 0 {
        0
    } else {
        digits_value(s.drop_last()) * 10 + (s.last() - 0x30) as nat
    }
}

/// `s` without one leading '+', if it has one.
pub open spec fn strip_plus(s: Seq<u8>) -> Seq<u8> {
    if s.len() > 0 && s[0] == 0x2b {
        s.drop_first()
    } else {
        s
    }
}

/// The value of `d` if it is a nonempty run of decimal digits whose value
/// fits in `usize`.
pub open spec fn parse_digits(d: Seq<u8>) -> Option<nat> {
    if d.len() > 0 && (forall|i: int| 0 <= i < d.len() ==> is_digit(#[trigger] d[i]))
        && digits_value(d) <= usize::MAX {
        Some(digits_value(d))
    } else {
        None
    }
}

/// The unsigned number that `s` spells: an optional '+', then at least one
/// decimal digit, with a value that fits in `usize`.
pub open spec fn parse_usize(s: Seq<u8>) -> Option<nat> {
    parse_digits(strip_plus(s))
}

/// The chunk id that a file name `chunk_<n>` carries, if it has that form.
pub open spec fn chunk_number(name: Seq<u8>) -> Option<nat> {
    if name.len() >= 6 && name.subrange(0, 6) == chunk_prefix() {
        parse_usize(name.subrange(6, name.len() as int))
    } else {
        None
    }
}

/// The largest chunk id among the names, or 0 if none is a chunk name.
pub open spec fn max_chunk_number(names: Seq<Seq<u8>>) -> nat
    decreases names.len(),
{
    if names.len() == 0 {
        0
    } else {
        let m = max_chunk_number(names.drop_last());
        match chunk_number(names.last()) {
            Some(n) => if n > m {
                n
            } else {
                m
            },
            None => m,
        }
    }
}

/// Whether any of the names is a chunk name.
pub open spec fn has_chunk_name(names: Seq<Seq<u8>>) -> bool
    decreases names.len(),
{
    if names.len() == 0 {
        false
    } else {
        has_chunk_name(names.drop_last()) || chunk_number(names.last()) is Some
    }
}

/// The id a log resumes at, given the names of its directory: one past the
/// largest chunk id, or 0 where no chunk was promoted yet.
pub open spec fn scan_next_chunk_id(names: Seq<Seq<u8>>) -> nat {
    if has_chunk_name(names) {
        max_chunk_number(names) + 1
    } else {
        0
    }
}

proof fn lemma_digits_prefix_le(s: Seq<u8>, k: int)
    requires
        0 <= k <= s.len(),
    ensures
        digits_value(s.subrange(0, k)) <= digits_value(s),
    decreases s.len(),
{
    if k < s.len() {
        lemma_digits_prefix_le(s.drop_last(), k);
        assert(s.drop_last().subrange(0, k) =~= s.subrange(0, k));
        let v = digits_value(s.drop_last());
        assert(v <= v * 10) by (nonlinear_arith);
    } else {
        assert(s.subrange(0, k) =~= s);
    }
}

/// Reads the chunk id of a file name `chunk_<n>`.
pub fn parse_chunk_number(name: &Vec<u8>) -> (r: Option<usize>)
    ensures
        match chunk_number(name@) {
            Some(n) => r == Some(n as usize),
            None => r is None,
        },
{
    let len = name.len();
    if len < 6 {
        return None;
    }
    if !(name[0] == 0x63u8 && name[1] == 0x68u8 && name[2] == 0x75u8 && name[3] == 0x6eu8
        && name[4] == 0x6bu8 && name[5] == 0x5fu8) {
        assert(name@.subrange(0, 6) != chunk_prefix()) by {
            if name@.subrange(0, 6) == chunk_prefix() {
                assert(name@.subrange(0, 6)[0] == name@[0]);
                assert(name@.subrange(0, 6)[1] == name@[1]);
                assert(name@.subrange(0, 6)[2] == name@[2]);
                assert(name@.subrange(0, 6)[3] == name@[3]);
                assert(name@.subrange(0, 6)[4] == name@[4]);
                assert(name@.subrange(0, 6)[5] == name@[5]);
            }
        }
        return None;
    }
    assert(name@.subrange(0, 6) =~= chunk_prefix());
    let ghost s = name@.subrange(6, len as int);
    let mut start: usize = 6;
    if len > 6 && name[6] == 0x2bu8 {
        start = 7;
    }
    let ghost d = name@.subrange(start as int, len as int);
    assert(d =~= strip_plus(s));
    assert(chunk_number(name@) == parse_digits(d));
    if start == len {
        return None;
    }
    let mut v: usize = 0;
    let mut i: usize = start;
    while i < len
        invariant
            start <= i <= len,
            len == name@.len(),
            d == name@.subrange(start as int, len as int),
            chunk_number(name@) == parse_digits(d),
            forall|j: int| 0 <= j < i - start ==> is_digit(#[trigger] d[j]),
            v == digits_value(d.subrange(0, i - start)),
        decreases len - i,
    {
        let b = name[i];
        if !(0x30u8 <= b && b <= 0x39u8) {
            assert(!is_digit(d[i - start]));
            return None;
        }
        let nv: u128 = (v as u128) * 10 + ((b - 0x30u8) as u128);
        assert(d.subrange(0, i + 1 - start).drop_last() =~= d.subrange(0, i - start));
        assert(nv == digits_value(d.subrange(0, i + 1 - start)));
        if nv > usize::MAX as u128 {
            proof {
                lemma_digits_prefix_le(d, i + 1 - start);
            }
            return None;
        }
        v = nv as usize;
        i = i + 1;
    }
    assert(d.subrange(0, len - start) =~= d);
    Some(v)
}

/// A stream over a buffer of whole records hands them out in order: where
/// `b` decodes to the records `rs`, one step of `next` yields `rs[0]` and
/// leaves a buffer that decodes to the rest, and an empty buffer holds no
/// record.
pub proof fn lemma_stream_step(b: Seq<u8>)
    requires
        decode_all(b) is Some,
    ensures
        b.len() == 0 <==> decode_all(b)->0.len() == 0,
        b.len() > 0 ==> ({
            let rs = decode_all(b)->0;
            let (r, n) = spec_decode(b)->0;
            &&& spec_decode(b) is Some
            &&& r == rs[0]
            &&& decode_all(b.subrange(n as int, b.len() as int)) == Some(rs.drop_first())
        }),
{
    if b.len() > 0 {
        let rs = decode_all(b)->0;
        let (r, n) = spec_decode(b)->0;
        assert(rs.drop_first() =~= decode_all(b.subrange(n as int, b.len() as int))->0);
    }
}

/// The promoted chunks of one game's log, as a directory scan found them.
pub struct GameDataReader {
    game_id: i32,
    next_chunk_id: usize,
}

impl GameDataReader {
    pub closed spec fn spec_game_id(&self) -> i32 {
        self.game_id
    }

    pub closed spec fn spec_next_chunk_id(&self) -> nat {
        self.next_chunk_id as nat
    }

    /// Scans the names of the regular files of a game directory, in UTF-8:
    /// the next chunk id is one past the largest `chunk_<n>` among them,
    /// and 0 where there is none, so that an empty log reads as no records
    /// and resumes at chunk 0. Fails with `Io` where that id would not fit
    /// in `usize`.
    pub fn open(game_id: i32, names: &Vec<Vec<u8>>) -> (r: Result<GameDataReader, Error>)
        ensures
            max_chunk_number(byte_views(names@)) < usize::MAX ==> r is Ok
                && r->Ok_0.spec_game_id() == game_id && r->Ok_0.spec_next_chunk_id()
                == scan_next_chunk_id(byte_views(names@)),
            !has_chunk_name(byte_views(names@)) ==> r is Ok && r->Ok_0.spec_next_chunk_id() == 0,
            max_chunk_number(byte_views(names@)) >= usize::MAX ==> r == Err::<
                GameDataReader,
                Error,
            >(Error::Io),
    {
        let ghost ns = byte_views(names@);
        let mut max_chunk_id: usize = 0;
        let mut found = false;
        let mut i: usize = 0;
        while i < names.len()
            invariant
                i <= names@.len(),
                ns == byte_views(names@),
                max_chunk_id == max_chunk_number(ns.take(i as int)),
                found == has_chunk_name(ns.take(i as int)),
                !found ==> max_chunk_id == 0,
            decreases names@.len() - i,
        {
            let n = parse_chunk_number(&names[i]);
            assert(ns.take(i + 1).drop_last() =~= ns.take(i as int));
            match n {
                Some(n) => {
                    found = true;
                    if n > max_chunk_id {
                        max_chunk_id = n;
                    }
                },
                None => {},
            }
            i = i + 1;
        }
        assert(ns.take(i as int) =~= ns);
        if !found {
            return Ok(GameDataReader { game_id, next_chunk_id: 0 });
        }
        if max_chunk_id == usize::MAX {
            return Err(Error::Io);
        }
        Ok(GameDataReader { game_id, next_chunk_id: max_chunk_id + 1 })
    }

    pub fn game_id(&self) -> (r: i32)
        ensures
            r == self.spec_game_id(),
    {
        self.game_id
    }

    pub fn next_chunk_id(&self) -> (r: usize)
        ensures
            r == self.spec_next_chunk_id(),
    {
        self.next_chunk_id
    }

    /// The records of chunks `0 .. next_chunk_id()`, in order.
    pub fn records(self) -> (r: GameDataReaderRecords)
        ensures
            r.wf(),
            r.remaining() == Seq::<u8>::empty(),
            r.spec_next_chunk() == 0,
            r.spec_end_chunk() == self.spec_next_chunk_id(),
    {
        let r = GameDataReaderRecords {
            buf: Vec::new(),
            pos: 0,
            next_chunk: 0,
            end_chunk: self.next_chunk_id,
        };
        assert(r.remaining() =~= Seq::<u8>::empty());
        r
    }
}

/// What a record stream has next.
#[derive(Debug, Clone, Copy, PartialEq, Eq, Structural)]
pub enum ReadStep {
    /// The next record.
    Record(Record),
    /// The bytes of the chunk with this id must be handed in with
    /// `load_chunk` before the stream can go on.
    NeedChunk(usize),
    /// The stream is exhausted.
    End,
}

/// A finite stream of records, decoded from a byte buffer that is refilled
/// chunk by chunk.
pub struct GameDataReaderRecords {
    buf: Vec<u8>,
    pos: usize,
    next_chunk: usize,
    end_chunk: usize,
}

impl GameDataReaderRecords {
    /// The read position lies within the buffer.
    pub closed spec fn position_ok(&self) -> bool {
        self.pos <= self.buf@.len()
    }

    pub open spec fn wf(&self) -> bool {
        self.position_ok() && self.spec_next_chunk() <= self.spec_end_chunk()
    }

    /// The bytes of the current buffer not decoded yet.
    pub closed spec fn remaining(&self) -> Seq<u8> {
        self.buf@.subrange(self.pos as int, self.buf@.len() as int)
    }

    /// The id of the next chunk to load.
    pub closed spec fn spec_next_chunk(&self) -> nat {
        self.next_chunk as nat
    }

    /// One past the id of the last chunk to load.
    pub closed spec fn spec_end_chunk(&self) -> nat {
        self.end_chunk as nat
    }

    /// Decodes the next record; asks for the next chunk once the buffer is
    /// exhausted, and reports the end once the last chunk is.
    pub fn next(&mut self) -> (r: Result<ReadStep, Error>)
        requires
            old(self).wf(),
        ensures
            final(self).wf(),
            final(self).spec_end_chunk() == old(self).spec_end_chunk(),
            final(self).spec_next_chunk() == old(self).spec_next_chunk(),
            old(self).remaining().len() > 0 ==> match spec_decode(old(self).remaining()) {
                Some((rec, n)) => r == Ok::<ReadStep, Error>(ReadStep::Record(rec))
                    && final(self).remaining() == old(self).remaining().subrange(
                    n as int,
                    old(self).remaining().len() as int,
                ),
                None => r == Err::<ReadStep, Error>(Error::RecordDecode) && final(self).remaining()
                    == old(self).remaining(),
            },
            old(self).remaining().len() == 0 && old(self).spec_next_chunk()
                < old(self).spec_end_chunk() ==> r == Ok::<ReadStep, Error>(
                ReadStep::NeedChunk(old(self).spec_next_chunk() as usize),
            ) && final(self).remaining() == old(self).remaining(),
            old(self).remaining().len() == 0 && old(self).spec_next_chunk()
                == old(self).spec_end_chunk() ==> r == Ok::<ReadStep, Error>(ReadStep::End)
                && final(self).remaining() == old(self).remaining(),
    {
        if self.pos < self.buf.len() {
            match Record::decode(&self.buf, self.pos) {
                Ok((rec, end)) => {
                    proof {
                        crate::record::lemma_decode_canonical(old(self).remaining());
                    }
                    self.pos = end;
                    assert(self.remaining() =~= old(self).remaining().subrange(
                        end - old(self).pos,
                        old(self).remaining().len() as int,
                    ));
                    Ok(ReadStep::Record(rec))
                },
                Err(e) => Err(e),
            }
        } else if self.next_chunk < self.end_chunk {
            Ok(ReadStep::NeedChunk(self.next_chunk))
        } else {
            Ok(ReadStep::End)
        }
    }

    /// Decodes every record left in a stream with no chunk left to load:
    /// all of them in order, or `RecordDecode` where the bytes left are not
    /// a whole number of records.
    pub fn collect_vec(self) -> (r: Result<Vec<Record>, Error>)
        requires
            self.wf(),
            self.spec_next_chunk() == self.spec_end_chunk(),
        ensures
            match decode_all(self.remaining()) {
                Some(rs) => r is Ok && r->Ok_0@ == rs,
                None => r == Err::<Vec<Record>, Error>(Error::RecordDecode),
            },
    {
        let ghost all = self.remaining();
        let mut s = self;
        let mut out: Vec<Record> = Vec::new();
        loop
            invariant
                all == self.remaining(),
                s.wf(),
                s.spec_next_chunk() == s.spec_end_chunk(),
                decode_all(all) is Some <==> decode_all(s.remaining()) is Some,
                decode_all(all) is Some ==> decode_all(all)->0 == out@ + decode_all(s.remaining())->0,
            decreases s.remaining().len(),
        {
            let ghost before = s.remaining();
            let ghost out_before = out@;
            proof {
                if decode_all(before) is Some {
                    lemma_stream_step(before);
                }
            }
            match s.next() {
                Ok(ReadStep::Record(rec)) => {
                    proof {
                        crate::record::lemma_decode_canonical(before);
                        let (r0, n) = spec_decode(before)->0;
                        crate::record::lemma_encode_len(r0);
                        if decode_all(before) is Some {
                            let rs = decode_all(before)->0;
                            assert(rs =~= seq![rs[0]] + rs.drop_first());
                        }
                    }
                    out.push(rec);
                    proof {
                        if decode_all(all) is Some {
                            let rs = decode_all(before)->0;
                            assert(out_before + rs =~= out@ + rs.drop_first());
                        }
                    }
                },
                Ok(_) => {
                    assert(decode_all(before) == Some(Seq::<Record>::empty()));
                    assert(out@ + Seq::<Record>::empty() =~= out@);
                    return Ok(out);
                },
                Err(e) => {
                    assert(decode_all(before) is None);
                    return Err(e);
                },
            }
        }
    }

    /// Hands in the bytes of the chunk that `next` asked for.
    pub fn load_chunk(&mut self, bytes: Vec<u8>)
        requires
            old(self).wf(),
            old(self).remaining().len() == 0,
            old(self).spec_next_chunk() < old(self).spec_end_chunk(),
        ensures
            final(self).wf(),
            final(self).remaining() == bytes@,
            final(self).spec_next_chunk() == old(self).spec_next_chunk() + 1,
            final(self).spec_end_chunk() == old(self).spec_end_chunk(),
    {
        self.buf = bytes;
        self.pos = 0;
        self.next_chunk = self.next_chunk + 1;
        assert(self.remaining() =~= bytes@);
    }
}

/// A finalized archive, decompressed: its header and the record bytes that
/// follow it.
pub struct GameDataArchiveReader {
    header: FileHeader,
    content: Vec<u8>,
}

impl GameDataArchiveReader {
    pub closed spec fn spec_game_id(&self) -> i32 {
        self.header.game_id
    }

    /// The record bytes that follow the header.
    pub closed spec fn content(&self) -> Seq<u8> {
        self.content@
    }

    /// Splits a decompressed archive into its header and content.
    pub fn from_plaintext(plain: Vec<u8>) -> (r: Result<GameDataArchiveReader, Error>)
        ensures
            match spec_decode_header(plain@) {
                Some(g) => r is Ok && r->Ok_0.spec_game_id() == g && r->Ok_0.content()
                    == plain@.subrange(8, plain@.len() as int),
                None => r is Err && r->Err_0 == Error::DecodeArchiveHeader,
            },
    {
        let header = match FileHeader::decode(&plain) {
            Ok(h) => h,
            Err(e) => {
                return Err(e);
            },
        };
        let mut plain = plain;
        let content = plain.split_off(HEADER_SIZE);
        Ok(GameDataArchiveReader { header, content })
    }

    /// Decompresses the bytes of an archive file and reads its header.
    /// Fails with `Io` where the gzip stream is broken.
    pub fn open(data: &Vec<u8>) -> (r: Result<GameDataArchiveReader, Error>)
        ensures
            match gunzip_of(data@) {
                None => r is Err && r->Err_0 == Error::Io,
                Some(p) => match spec_decode_header(p) {
                    Some(g) => r is Ok && r->Ok_0.spec_game_id() == g && r->Ok_0.content()
                        == p.subrange(8, p.len() as int),
                    None => r is Err && r->Err_0 == Error::DecodeArchiveHeader,
                },
            },
    {
        match gunzip(data) {
            Some(plain) => Self::from_plaintext(plain),
            None => Err(Error::Io),
        }
    }

    pub fn game_id(&self) -> (r: i32)
        ensures
            r == self.spec_game_id(),
    {
        self.header.game_id
    }

    /// The records of the content, in order.
    pub fn records(self) -> (r: GameDataReaderRecords)
        ensures
            r.wf(),
            r.remaining() == self.content(),
            r.spec_next_chunk() == 0,
            r.spec_end_chunk() == 0,
    {
        let r = GameDataReaderRecords { buf: self.content, pos: 0, next_chunk: 0, end_chunk: 0 };
        assert(r.remaining() =~= r.buf@);
        r
    }
}

} // verus!
