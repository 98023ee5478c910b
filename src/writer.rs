use crate::archive::{
    archive_plaintext, archive_plaintext_bytes, byte_views, gunzip_of, gzip, gzip_of,
    lemma_flatten_push,
};
use crate::error::Error;
use crate::header::{lemma_header_round_trip, spec_decode_header, spec_header_bytes};
use crate::layout::{chunk_name, decimal, lemma_decimal, promoted_names, scratch_name};
use crate::reader::{
    chunk_number, chunk_prefix, has_chunk_name, max_chunk_number, scan_next_chunk_id, GameDataReader,
};
use crate::record::{
    decode_all, encode_all, lemma_decode_all_encode_all, lemma_encode_all_concat,
    lemma_encode_all_decode_all, lemma_encode_all_push, lemma_encode_len, spec_encode, Record,
    MAX_CHUNK_SIZE,
};
use vstd::prelude::*;

verus! {

/// Where a write landed.
#[derive(Debug, Clone, Copy, PartialEq, Eq, Structural)]
pub enum WriteDestination {
    /// Appended to the chunk being filled.
    CurrentChunk,
    /// The chunk being filled was promoted first; the write opened a new one.
    NewChunk,
}

/// A chunk that the caller must make durable, in this order: write `bytes`
/// to the scratch file `_chunk`, sync it, rename it to `chunk_<chunk_id>`,
/// then recreate `_chunk` empty.
#[derive(Debug)]
pub struct Promotion {
    pub chunk_id: usize,
    pub bytes: Vec<u8>,
}

/// The encodings of each list of records.
pub open spec fn encode_each(rss: Seq<Seq<Record>>) -> Seq<Seq<u8>> {
    rss.map_values(|rs: Seq<Record>| encode_all(rs))
}

/// The records of a list of chunks, each decoded on its own, end to end;
/// `None` if one of them is not a whole number of records.
pub open spec fn decode_chunks(cs: Seq<Seq<u8>>) -> Option<Seq<Record>>
    decreases cs.len(),
{
    if cs.len() == 0 {
        Some(Seq::empty())
    } else {
        match decode_all(cs[0]) {
            Some(rs) => match decode_chunks(cs.drop_first()) {
                Some(rest) => Some(rs + rest),
                None => None,
            },
            None => None,
        }
    }
}

/// The buffering writer of the chunk log of one game. It decides when the
/// chunk being filled is promoted; the caller performs each `Promotion` it
/// hands out.
pub struct GameDataWriter {
    game_id: i32,
    chunk_id: usize,
    chunk_buf: Vec<u8>,
    first_chunk_id: Ghost<nat>,
    promoted: Ghost<Seq<Seq<Record>>>,
    pending: Ghost<Seq<Record>>,
}

impl GameDataWriter {
    pub closed spec fn spec_game_id(&self) -> i32 {
        self.game_id
    }

    /// The id the next promoted chunk gets.
    pub closed spec fn spec_chunk_id(&self) -> nat {
        self.chunk_id as nat
    }

    /// The id of the first chunk this writer promoted (or will promote).
    pub closed spec fn first_chunk_id(&self) -> nat {
        self.first_chunk_id@
    }

    /// The records of each chunk this writer promoted, in order.
    pub closed spec fn promoted(&self) -> Seq<Seq<Record>> {
        self.promoted@
    }

    /// The records buffered in the chunk being filled.
    pub closed spec fn pending(&self) -> Seq<Record> {
        self.pending@
    }

    /// The bytes buffered in the chunk being filled.
    pub closed spec fn buffered(&self) -> Seq<u8> {
        self.chunk_buf@
    }

    /// Every record written through this writer, in order.
    pub open spec fn written(&self) -> Seq<Record> {
        self.promoted().flatten() + self.pending()
    }

    /// The bytes of each chunk this writer promoted, in order.
    pub open spec fn chunk_bytes(&self) -> Seq<Seq<u8>> {
        encode_each(self.promoted())
    }

    /// The buffer holds the encodings of the pending records and fits in a
    /// chunk; each promoted chunk holds at least one record and fits in a
    /// chunk; chunk ids count the promoted chunks.
    pub open spec fn wf(&self) -> bool {
        &&& self.buffered() == encode_all(self.pending())
        &&& self.buffered().len() <= MAX_CHUNK_SIZE
        &&& self.spec_chunk_id() == self.first_chunk_id() + self.promoted().len()
        &&& forall|i: int|
            0 <= i < self.promoted().len() ==> #[trigger] self.promoted()[i].len() > 0
                && encode_all(self.promoted()[i]).len() <= MAX_CHUNK_SIZE
    }

    /// A writer for a new game: chunk ids start at 0 and nothing is buffered.
    pub fn create(game_id: i32) -> (w: GameDataWriter)
        ensures
            w.wf(),
            w.spec_game_id() == game_id,
            w.spec_chunk_id() == 0,
            w.first_chunk_id() == 0,
            w.promoted() == Seq::<Seq<Record>>::empty(),
            w.pending() == Seq::<Record>::empty(),
            w.buffered() == Seq::<u8>::empty(),
    {
        GameDataWriter {
            game_id,
            chunk_id: 0,
            chunk_buf: Vec::new(),
            first_chunk_id: Ghost(0),
            promoted: Ghost(Seq::empty()),
            pending: Ghost(Seq::empty()),
        }
    }

    /// A writer that resumes the log that `reader` scanned: the next chunk
    /// id is the reader's, and whatever the scratch file held is dropped.
    pub fn recover(reader: &GameDataReader) -> (w: GameDataWriter)
        ensures
            w.wf(),
            w.spec_game_id() == reader.spec_game_id(),
            w.spec_chunk_id() == reader.spec_next_chunk_id(),
            w.first_chunk_id() == reader.spec_next_chunk_id(),
            w.promoted() == Seq::<Seq<Record>>::empty(),
            w.pending() == Seq::<Record>::empty(),
            w.buffered() == Seq::<u8>::empty(),
    {
        let n = reader.next_chunk_id();
        GameDataWriter {
            game_id: reader.game_id(),
            chunk_id: n,
            chunk_buf: Vec::new(),
            first_chunk_id: Ghost(n as nat),
            promoted: Ghost(Seq::empty()),
            pending: Ghost(Seq::empty()),
        }
    }

    pub fn game_id(&self) -> (r: i32)
        ensures
            r == self.spec_game_id(),
    {
        self.game_id
    }

    pub fn chunk_id(&self) -> (r: usize)
        ensures
            r == self.spec_chunk_id(),
    {
        self.chunk_id
    }

    proof fn lemma_empty_iff(rs: Seq<Record>)
        ensures
            encode_all(rs).len() == 0 <==> rs.len() == 0,
    {
        if rs.len() > 0 {
            lemma_encode_len(rs[0]);
        }
    }

    /// Hands out the buffered chunk for promotion.
    fn flush_chunk(&mut self) -> (p: Promotion)
        requires
            old(self).wf(),
            old(self).pending().len() > 0,
            old(self).spec_chunk_id() < usize::MAX,
        ensures
            final(self).wf(),
            p.chunk_id == old(self).spec_chunk_id(),
            p.bytes@ == old(self).buffered(),
            p.bytes@ == encode_all(old(self).pending()),
            final(self).spec_game_id() == old(self).spec_game_id(),
            final(self).first_chunk_id() == old(self).first_chunk_id(),
            final(self).spec_chunk_id() == old(self).spec_chunk_id() + 1,
            final(self).promoted() == old(self).promoted().push(old(self).pending()),
            final(self).pending() == Seq::<Record>::empty(),
            final(self).buffered() == Seq::<u8>::empty(),
    {
        let bytes = self.chunk_buf.split_off(0);
        assert(bytes@ =~= old(self).chunk_buf@);
        let p = Promotion { chunk_id: self.chunk_id, bytes };
        self.chunk_id = self.chunk_id + 1;
        proof {
            let old_pending = self.pending@;
            self.promoted@ = self.promoted@.push(old_pending);
            self.pending@ = Seq::empty();
            assert(self.chunk_buf@ =~= encode_all(self.pending@));
            assert forall|i: int| 0 <= i < self.promoted@.len() implies #[trigger] self.promoted@[i].len() > 0
                && encode_all(self.promoted@[i]).len() <= MAX_CHUNK_SIZE by {
                if i == self.promoted@.len() - 1 {
                    assert(self.promoted@[i] == old_pending);
                }
            }
        }
        p
    }

    proof fn lemma_written_push(a: Seq<Seq<Record>>, pending: Seq<Record>, r: Seq<Record>)
        ensures
            a.push(pending).flatten() + r == a.flatten() + (pending + r),
    {
        vstd::seq_lib::lemma_flatten_concat(a, seq![pending]);
        seq![pending].lemma_flatten_one_element();
        assert(a.push(pending) =~= a + seq![pending]);
        assert(a.flatten() + pending + r =~= a.flatten() + (pending + r));
    }

    /// Appends the encoding of `data`. Where it would overflow the chunk
    /// being filled, that chunk is handed out for promotion first and the
    /// write lands in a new chunk.
    pub fn write_record(&mut self, data: &Record) -> (r: (WriteDestination, Option<Promotion>))
        requires
            old(self).wf(),
            old(self).spec_chunk_id() < usize::MAX,
        ensures
            final(self).wf(),
            final(self).spec_game_id() == old(self).spec_game_id(),
            final(self).first_chunk_id() == old(self).first_chunk_id(),
            final(self).written() == old(self).written().push(*data),
            old(self).buffered().len() + spec_encode(*data).len() > MAX_CHUNK_SIZE ==> {
                &&& r.0 == WriteDestination::NewChunk
                &&& r.1 is Some
                &&& r.1->0.chunk_id == old(self).spec_chunk_id()
                &&& r.1->0.bytes@ == old(self).buffered()
                &&& 0 < r.1->0.bytes@.len() <= MAX_CHUNK_SIZE
                &&& final(self).spec_chunk_id() == old(self).spec_chunk_id() + 1
                &&& final(self).promoted() == old(self).promoted().push(old(self).pending())
                &&& final(self).pending() == seq![*data]
                &&& final(self).buffered() == spec_encode(*data)
            },
            old(self).buffered().len() + spec_encode(*data).len() <= MAX_CHUNK_SIZE ==> {
                &&& r.0 == WriteDestination::CurrentChunk
                &&& r.1 is None
                &&& final(self).spec_chunk_id() == old(self).spec_chunk_id()
                &&& final(self).promoted() == old(self).promoted()
                &&& final(self).pending() == old(self).pending().push(*data)
                &&& final(self).buffered() == old(self).buffered() + spec_encode(*data)
            },
    {
        proof {
            lemma_encode_len(*data);
            Self::lemma_empty_iff(self.pending@);
            Self::lemma_written_push(self.promoted@, self.pending@, seq![*data]);
        }
        let size = data.encoded_size();
        let mut dest = WriteDestination::CurrentChunk;
        let mut promotion: Option<Promotion> = None;
        if self.chunk_buf.len() + size > MAX_CHUNK_SIZE {
            promotion = Some(self.flush_chunk());
            dest = WriteDestination::NewChunk;
        }
        data.encode(&mut self.chunk_buf);
        proof {
            lemma_encode_all_push(self.pending@, *data);
            self.pending@ = self.pending@.push(*data);
        }
        assert(seq![*data] =~= Seq::<Record>::empty().push(*data));
        assert(Seq::<Record>::empty() + seq![*data] =~= seq![*data]);
        assert(old(self).pending().push(*data) =~= old(self).pending() + seq![*data]);
        (dest, promotion)
    }

    /// Appends `bytes`, which hold whole records, as they are. Fails with
    /// `RecordTooLarge` where they exceed a chunk; otherwise behaves as
    /// `write_record` does for one record of that size.
    pub fn write_bytes(&mut self, bytes: &Vec<u8>) -> (r: Result<
        (WriteDestination, Option<Promotion>),
        Error,
    >)
        requires
            old(self).wf(),
            old(self).spec_chunk_id() < usize::MAX,
            decode_all(bytes@) is Some,
        ensures
            final(self).wf(),
            final(self).spec_game_id() == old(self).spec_game_id(),
            final(self).first_chunk_id() == old(self).first_chunk_id(),
            bytes@.len() > MAX_CHUNK_SIZE ==> r == Err::<(WriteDestination, Option<Promotion>), Error>(
                Error::RecordTooLarge,
            ) && *final(self) == *old(self),
            bytes@.len() <= MAX_CHUNK_SIZE ==> final(self).written() == old(self).written()
                + decode_all(bytes@)->0,
            bytes@.len() <= MAX_CHUNK_SIZE && old(self).buffered().len() + bytes@.len()
                > MAX_CHUNK_SIZE ==> {
                &&& r is Ok
                &&& r->Ok_0.0 == WriteDestination::NewChunk
                &&& r->Ok_0.1 is Some
                &&& r->Ok_0.1->0.chunk_id == old(self).spec_chunk_id()
                &&& r->Ok_0.1->0.bytes@ == old(self).buffered()
                &&& 0 < r->Ok_0.1->0.bytes@.len() <= MAX_CHUNK_SIZE
                &&& final(self).spec_chunk_id() == old(self).spec_chunk_id() + 1
                &&& final(self).promoted() == old(self).promoted().push(old(self).pending())
                &&& final(self).buffered() == bytes@
            },
            old(self).buffered().len() + bytes@.len() <= MAX_CHUNK_SIZE ==> {
                &&& r is Ok
                &&& r->Ok_0.0 == WriteDestination::CurrentChunk
                &&& r->Ok_0.1 is None
                &&& final(self).spec_chunk_id() == old(self).spec_chunk_id()
                &&& final(self).promoted() == old(self).promoted()
                &&& final(self).buffered() == old(self).buffered() + bytes@
            },
    {
        let ghost rs = decode_all(bytes@)->0;
        proof {
            lemma_encode_all_decode_all(bytes@);
            Self::lemma_empty_iff(self.pending@);
            Self::lemma_written_push(self.promoted@, self.pending@, rs);
        }
        if bytes.len() > MAX_CHUNK_SIZE {
            return Err(Error::RecordTooLarge);
        }
        let mut dest = WriteDestination::CurrentChunk;
        let mut promotion: Option<Promotion> = None;
        if self.chunk_buf.len() + bytes.len() > MAX_CHUNK_SIZE {
            promotion = Some(self.flush_chunk());
            dest = WriteDestination::NewChunk;
        }
        let mut copy = bytes.clone();
        assert(copy@ == bytes@);
        self.chunk_buf.append(&mut copy);
        proof {
            lemma_encode_all_concat(self.pending@, rs);
            self.pending@ = self.pending@ + rs;
        }
        assert(Seq::<Record>::empty() + rs =~= rs);
        Ok((dest, promotion))
    }

    /// Hands out the chunk being filled for promotion, if it holds anything.
    pub fn sync_all(&mut self) -> (r: Option<Promotion>)
        requires
            old(self).wf(),
            old(self).spec_chunk_id() < usize::MAX,
        ensures
            final(self).wf(),
            final(self).written() == old(self).written(),
            final(self).pending() == Seq::<Record>::empty(),
            final(self).buffered() == Seq::<u8>::empty(),
            old(self).pending().len() == 0 ==> r is None && *final(self) == *old(self),
            old(self).pending().len() > 0 ==> {
                &&& r is Some
                &&& r->0.chunk_id == old(self).spec_chunk_id()
                &&& r->0.bytes@ == old(self).buffered()
                &&& 0 < r->0.bytes@.len() <= MAX_CHUNK_SIZE
                &&& final(self).spec_game_id() == old(self).spec_game_id()
                &&& final(self).first_chunk_id() == old(self).first_chunk_id()
                &&& final(self).spec_chunk_id() == old(self).spec_chunk_id() + 1
                &&& final(self).promoted() == old(self).promoted().push(old(self).pending())
            },
    {
        proof {
            Self::lemma_empty_iff(self.pending@);
            Self::lemma_written_push(self.promoted@, self.pending@, Seq::empty());
            assert(self.pending@ + Seq::<Record>::empty() =~= self.pending@);
        }
        if self.chunk_buf.len() == 0 {
            return None;
        }
        let p = self.flush_chunk();
        assert(final(self).written() =~= old(self).written());
        Some(p)
    }

    /// Finalizes the log: hands out the chunk being filled for promotion,
    /// as `sync_all` does, and returns the compressed archive of this game
    /// over `chunks`, the bytes of the chunks promoted before (ids
    /// `0 .. chunk_id()`, in order), followed by that last chunk.
    pub fn build_archive(&mut self, chunks: &Vec<Vec<u8>>) -> (r: (Option<Promotion>, Vec<u8>))
        requires
            old(self).wf(),
            old(self).spec_chunk_id() < usize::MAX,
        ensures
            final(self).wf(),
            final(self).written() == old(self).written(),
            final(self).pending() == Seq::<Record>::empty(),
            final(self).buffered() == Seq::<u8>::empty(),
            final(self).spec_game_id() == old(self).spec_game_id(),
            final(self).first_chunk_id() == old(self).first_chunk_id(),
            old(self).pending().len() == 0 ==> r.0 is None && *final(self) == *old(self),
            old(self).pending().len() > 0 ==> {
                &&& r.0 is Some
                &&& r.0->0.chunk_id == old(self).spec_chunk_id()
                &&& r.0->0.bytes@ == old(self).buffered()
                &&& 0 < r.0->0.bytes@.len() <= MAX_CHUNK_SIZE
                &&& final(self).spec_chunk_id() == old(self).spec_chunk_id() + 1
                &&& final(self).promoted() == old(self).promoted().push(old(self).pending())
            },
            r.1@ == gzip_of(
                archive_plaintext(old(self).spec_game_id(), byte_views(chunks@).push(old(self).buffered())),
            ),
            gunzip_of(r.1@) == Some(
                archive_plaintext(old(self).spec_game_id(), byte_views(chunks@).push(old(self).buffered())),
            ),
    {
        let mut plain = archive_plaintext_bytes(self.game_id, chunks);
        let mut tail = self.chunk_buf.clone();
        assert(tail@ == self.chunk_buf@);
        proof {
            lemma_flatten_push(byte_views(chunks@), self.chunk_buf@);
            assert(archive_plaintext(self.game_id, byte_views(chunks@).push(self.chunk_buf@))
                =~= archive_plaintext(self.game_id, byte_views(chunks@)) + self.chunk_buf@);
        }
        plain.append(&mut tail);
        let p = self.sync_all();
        let data = match gzip(&plain) {
            Some(data) => data,
            None => Vec::new(),
        };
        (p, data)
    }
}

proof fn lemma_decode_chunks_encode_each(rss: Seq<Seq<Record>>)
    ensures
        decode_chunks(encode_each(rss)) == Some(rss.flatten()),
    decreases rss.len(),
{
    if rss.len() > 0 {
        let cs = encode_each(rss);
        assert(cs.drop_first() =~= encode_each(rss.drop_first()));
        lemma_decode_all_encode_all(rss[0]);
        lemma_decode_chunks_encode_each(rss.drop_first());
    }
}

proof fn lemma_flatten_encode_each(rss: Seq<Seq<Record>>)
    ensures
        encode_each(rss).flatten() == encode_all(rss.flatten()),
    decreases rss.len(),
{
    if rss.len() > 0 {
        let cs = encode_each(rss);
        assert(cs.drop_first() =~= encode_each(rss.drop_first()));
        lemma_flatten_encode_each(rss.drop_first());
        lemma_encode_all_concat(rss[0], rss.drop_first().flatten());
    }
}

/// Every chunk a writer promotes holds between one byte and a chunk's
/// capacity, and is a whole number of records: no record straddles two
/// chunks.
pub proof fn lemma_chunks_whole_and_bounded(w: GameDataWriter)
    requires
        w.wf(),
    ensures
        forall|i: int|
            0 <= i < w.chunk_bytes().len() ==> 0 < #[trigger] w.chunk_bytes()[i].len()
                <= MAX_CHUNK_SIZE && decode_all(w.chunk_bytes()[i]) == Some(w.promoted()[i]),
{
    assert forall|i: int| 0 <= i < w.chunk_bytes().len() implies 0 < #[trigger] w.chunk_bytes()[i].len()
        <= MAX_CHUNK_SIZE && decode_all(w.chunk_bytes()[i]) == Some(w.promoted()[i]) by {
        assert(w.promoted()[i].len() > 0);
        GameDataWriter::lemma_empty_iff(w.promoted()[i]);
        lemma_decode_all_encode_all(w.promoted()[i]);
    }
}

/// Once a writer's buffer is promoted, reading its chunks back one by one
/// yields exactly the records written to it, in order.
pub proof fn lemma_log_reads_back(w: GameDataWriter)
    requires
        w.wf(),
        w.pending().len() == 0,
    ensures
        decode_chunks(w.chunk_bytes()) == Some(w.written()),
{
    lemma_decode_chunks_encode_each(w.promoted());
    assert(w.written() =~= w.promoted().flatten());
}

/// The archive that `build_archive` returns reads back as the records
/// written: where `chunks` are the bytes of the chunks a writer promoted,
/// the plaintext over them and its final buffer names its game and holds
/// exactly the records written to it, in order.
pub proof fn lemma_archive_reads_back(w: GameDataWriter, chunks: Seq<Seq<u8>>)
    requires
        w.wf(),
        chunks == w.chunk_bytes(),
    ensures
        ({
            let pt = archive_plaintext(w.spec_game_id(), chunks.push(w.buffered()));
            &&& spec_decode_header(pt) == Some(w.spec_game_id())
            &&& decode_all(pt.subrange(8, pt.len() as int)) == Some(w.written())
        }),
{
    let body = chunks.push(w.buffered()).flatten();
    let pt = archive_plaintext(w.spec_game_id(), chunks.push(w.buffered()));
    lemma_header_round_trip(w.spec_game_id(), body);
    assert(pt.subrange(8, pt.len() as int) =~= body);
    lemma_flatten_push(chunks, w.buffered());
    lemma_flatten_encode_each(w.promoted());
    lemma_encode_all_concat(w.promoted().flatten(), w.pending());
    lemma_decode_all_encode_all(w.written());
}

proof fn lemma_chunk_name_number(i: nat)
    requires
        i <= usize::MAX,
    ensures
        chunk_number(chunk_name(i)) == Some(i),
{
    lemma_decimal(i);
    let name = chunk_name(i);
    assert(name.subrange(0, 6) =~= chunk_prefix());
    assert(name.subrange(6, name.len() as int) =~= decimal(i));
}

proof fn lemma_max_promoted_names(n: nat)
    requires
        1 <= n <= usize::MAX,
    ensures
        max_chunk_number(promoted_names(n)) == n - 1,
    decreases n,
{
    lemma_chunk_name_number((n - 1) as nat);
    assert(promoted_names(n).last() == chunk_name((n - 1) as nat));
    if n > 1 {
        lemma_max_promoted_names((n - 1) as nat);
        assert(promoted_names(n).drop_last() =~= promoted_names((n - 1) as nat));
        assert(max_chunk_number(promoted_names(n).drop_last()) == n - 2);
    } else {
        assert(promoted_names(n).drop_last() =~= Seq::<Seq<u8>>::empty());
        assert(max_chunk_number(promoted_names(n).drop_last()) == 0);
    }
    assert(chunk_number(promoted_names(n).last()) == Some((n - 1) as nat));
}

/// Recovery resumes where the log stopped: in the directory of a writer
/// that started at chunk 0, the files are its promoted chunks and the
/// scratch file, and a scan of their names gives its next chunk id (0 for
/// a log with no chunk yet). The chunks read back from there are the ones it
/// promoted, so the recovered writer builds the archive of the same
/// plaintext.
pub proof fn lemma_recover_resumes(w: GameDataWriter)
    requires
        w.wf(),
        w.first_chunk_id() == 0,
        w.spec_chunk_id() < usize::MAX,
    ensures
        scan_next_chunk_id(promoted_names(w.spec_chunk_id()).push(scratch_name()))
            == w.spec_chunk_id(),
        w.chunk_bytes().len() == w.spec_chunk_id(),
{
    let n = w.spec_chunk_id();
    let names = promoted_names(n).push(scratch_name());
    assert(names.drop_last() =~= promoted_names(n));
    assert(scratch_name().subrange(0, 6)[0] != chunk_prefix()[0]);
    assert(chunk_number(scratch_name()) is None);
    assert(names.last() == scratch_name());
    assert(has_chunk_name(names) == has_chunk_name(promoted_names(n)));
    assert(max_chunk_number(names) == max_chunk_number(promoted_names(n)));
    if n >= 1 {
        lemma_max_promoted_names(n);
        lemma_chunk_name_number((n - 1) as nat);
        assert(promoted_names(n).last() == chunk_name((n - 1) as nat));
        assert(has_chunk_name(promoted_names(n)));
    } else {
        assert(promoted_names(n) =~= Seq::<Seq<u8>>::empty());
        assert(!has_chunk_name(promoted_names(n)));
    }
}

} // verus!
