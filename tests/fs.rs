use flo_observer_store::archive::build_archive_bytes;
use flo_observer_store::error::Error;
use flo_observer_store::reader::{GameDataArchiveReader, GameDataReader, GameDataReaderRecords, ReadStep};
use flo_observer_store::record::Record;
use flo_observer_store::writer::{GameDataWriter, Promotion, WriteDestination};

/// Holds promoted chunks by id, as the game directory would.
fn promote(disk: &mut Vec<Vec<u8>>, p: Promotion) {
    assert_eq!(p.chunk_id, disk.len());
    assert!(!p.bytes.is_empty() && p.bytes.len() <= 4096);
    disk.push(p.bytes);
}

fn names_of(disk: &Vec<Vec<u8>>) -> Vec<Vec<u8>> {
    let mut names: Vec<Vec<u8>> = (0..disk.len())
        .map(|i| flo_observer_store::layout::chunk_file_name(i))
        .collect();
    names.push(b"_chunk".to_vec());
    names
}

fn collect_chunks(mut r: GameDataReaderRecords, disk: &Vec<Vec<u8>>) -> Result<Vec<Record>, Error> {
    let mut all = vec![];
    loop {
        match r.next()? {
            ReadStep::Record(rec) => all.push(rec),
            ReadStep::NeedChunk(id) => r.load_chunk(disk[id].clone()),
            ReadStep::End => return Ok(all),
        }
    }
}

fn validate_records(items: Vec<Record>) {
    for (i, r) in items.into_iter().enumerate() {
        let v = match r {
            Record::StopLag(id) => id as usize,
            _ => unreachable!(),
        };
        assert_eq!(i, v);
    }
}

#[test]
fn test_fs() {
    const N: usize = 10000;
    let game_id = i32::MAX;
    let mut disk: Vec<Vec<u8>> = vec![];

    let mut writer = GameDataWriter::create(game_id);
    for id in 0..N {
        let (_, p) = writer.write_record(&Record::StopLag(id as i32));
        if let Some(p) = p {
            promote(&mut disk, p);
        }
    }
    let (p, first) = writer.build_archive(&disk);
    if let Some(p) = p {
        promote(&mut disk, p);
    }
    assert_eq!(disk.len(), 13);

    let reader = GameDataReader::open(game_id, &names_of(&disk)).unwrap();
    let mut writer = GameDataWriter::recover(&reader);
    assert_eq!(writer.chunk_id(), 13);
    let (p, second) = writer.build_archive(&disk);
    assert!(p.is_none());
    assert_eq!(first, second);

    let r = GameDataReader::open(game_id, &names_of(&disk)).unwrap();
    let records = collect_chunks(r.records(), &disk).unwrap();
    assert_eq!(records.len(), N);
    validate_records(records);

    let r = GameDataArchiveReader::open(&second).unwrap();
    assert_eq!(r.game_id(), game_id);
    let records = collect_chunks(r.records(), &disk).unwrap();
    assert_eq!(records.len(), N);
    validate_records(records);
}

#[test]
fn mixed_records_read_back_from_chunks_and_archive() {
    let recs = vec![
        Record::GameEnd,
        Record::StopLag(-7),
        Record::TickChecksum { tick: 12, checksum: 0xdeadbeef },
        Record::StopLag(i32::MIN),
    ];
    let mut disk = vec![];
    let mut w = GameDataWriter::create(5);
    for r in &recs {
        let (d, p) = w.write_record(r);
        assert_eq!(d, WriteDestination::CurrentChunk);
        assert!(p.is_none());
    }
    let (p, data) = w.build_archive(&disk);
    promote(&mut disk, p.unwrap());
    assert_eq!(disk[0].len(), 1 + 5 + 9 + 5);
    let r = GameDataReader::open(5, &names_of(&disk)).unwrap();
    assert_eq!(collect_chunks(r.records(), &disk).unwrap(), recs);
    let a = GameDataArchiveReader::open(&data).unwrap();
    assert_eq!(a.game_id(), 5);
    assert_eq!(a.records().collect_vec().unwrap(), recs);
}

#[test]
fn chunk_fills_to_exactly_max_size() {
    // 819 records of 5 bytes fill 4095 bytes; the 820th opens a new chunk.
    let mut w = GameDataWriter::create(1);
    for i in 0..819 {
        let (d, p) = w.write_record(&Record::StopLag(i));
        assert_eq!(d, WriteDestination::CurrentChunk);
        assert!(p.is_none());
    }
    let (d, p) = w.write_record(&Record::StopLag(819));
    assert_eq!(d, WriteDestination::NewChunk);
    let p = p.unwrap();
    assert_eq!(p.chunk_id, 0);
    assert_eq!(p.bytes.len(), 4095);
    assert_eq!(w.chunk_id(), 1);
    let p = w.sync_all().unwrap();
    assert_eq!(p.chunk_id, 1);
    assert_eq!(p.bytes, vec![1, 0x33, 0x03, 0, 0]);
    assert!(w.sync_all().is_none());
}

#[test]
fn write_bytes_too_large_is_rejected() {
    let mut w = GameDataWriter::create(1);
    let bytes = vec![0u8; 4097];
    assert_eq!(w.write_bytes(&bytes).unwrap_err(), Error::RecordTooLarge);
    assert_eq!(w.chunk_id(), 0);
    assert!(w.sync_all().is_none());
}

#[test]
fn write_bytes_splices_and_promotes() {
    let mut w = GameDataWriter::create(1);
    let full = vec![0u8; 4096];
    let (d, p) = w.write_bytes(&full).unwrap();
    assert_eq!(d, WriteDestination::CurrentChunk);
    assert!(p.is_none());
    let (d, p) = w.write_bytes(&vec![0u8]).unwrap();
    assert_eq!(d, WriteDestination::NewChunk);
    assert_eq!(p.unwrap().bytes, full);
    assert_eq!(w.sync_all().unwrap().bytes, vec![0u8]);
}

#[test]
fn recover_skips_scratch_and_foreign_names() {
    let names: Vec<Vec<u8>> = vec![
        b"_chunk".to_vec(),
        b"chunk_3".to_vec(),
        b"chunk_+7".to_vec(),
        b"chunk_x".to_vec(),
        b"chunk_".to_vec(),
        b"archive.gz".to_vec(),
        b"chunk_99999999999999999999999".to_vec(),
    ];
    let r = GameDataReader::open(9, &names).unwrap();
    assert_eq!(r.next_chunk_id(), 8);
    let w = GameDataWriter::recover(&r);
    assert_eq!(w.chunk_id(), 8);
    assert_eq!(w.game_id(), 9);
}

#[test]
fn empty_log_resumes_at_zero_and_reads_nothing() {
    let r = GameDataReader::open(9, &vec![]).unwrap();
    assert_eq!(r.next_chunk_id(), 0);
    assert!(collect_chunks(r.records(), &vec![]).unwrap().is_empty());
    let r = GameDataReader::open(9, &vec![b"_chunk".to_vec(), b"archive.gz".to_vec()]).unwrap();
    let mut w = GameDataWriter::recover(&r);
    assert_eq!(w.chunk_id(), 0);
    let (_, p) = w.write_record(&Record::GameEnd);
    assert!(p.is_none());
    assert_eq!(w.sync_all().unwrap().chunk_id, 0);
}

#[test]
fn empty_archive_reads_nothing() {
    let mut w = GameDataWriter::create(4);
    let (p, data) = w.build_archive(&vec![]);
    assert!(p.is_none());
    let a = GameDataArchiveReader::open(&data).unwrap();
    assert_eq!(a.game_id(), 4);
    assert!(a.records().collect_vec().unwrap().is_empty());
}

#[test]
fn archive_with_broken_content_fails_to_collect() {
    let data = build_archive_bytes(2, &vec![vec![1u8, 0]]);
    let a = GameDataArchiveReader::open(&data).unwrap();
    assert_eq!(a.records().collect_vec().unwrap_err(), Error::RecordDecode);
}

#[test]
fn chunk_id_past_usize_is_an_error() {
    let names = vec![format!("chunk_{}", usize::MAX).into_bytes()];
    assert_eq!(GameDataReader::open(9, &names).err(), Some(Error::Io));
}

#[test]
fn truncated_record_is_a_decode_error() {
    let disk = vec![vec![1u8, 2, 3]];
    let r = GameDataReader::open(1, &names_of(&disk)).unwrap();
    assert_eq!(collect_chunks(r.records(), &disk).unwrap_err(), Error::RecordDecode);
}

#[test]
fn archive_is_deterministic_and_compressed() {
    let disk = vec![vec![0u8; 4000], vec![0u8; 10]];
    let a = build_archive_bytes(3, &disk);
    let b = build_archive_bytes(3, &disk);
    assert_eq!(a, b);
    assert_eq!(&a[0..2], &[0x1f, 0x8b]);
    assert!(a.len() < 4018);
}

#[test]
fn archive_header_tamper_is_rejected() {
    let plain = {
        let mut v = vec![0x66u8 ^ 1, 0x6c, 0x6f, 0x01, 1, 0, 0, 0];
        v.push(0);
        v
    };
    assert_eq!(
        GameDataArchiveReader::from_plaintext(plain).err(),
        Some(Error::DecodeArchiveHeader)
    );
    // The same tamper on a real archive.
    let data = build_archive_bytes(1, &vec![vec![0u8]]);
    let ok = GameDataArchiveReader::open(&data).unwrap();
    assert_eq!(ok.game_id(), 1);
    let short = GameDataArchiveReader::from_plaintext(vec![0x66, 0x6c, 0x6f]);
    assert_eq!(short.err(), Some(Error::DecodeArchiveHeader));
}

#[test]
fn broken_gzip_is_an_io_error() {
    assert_eq!(GameDataArchiveReader::open(&vec![1, 2, 3, 4]).err(), Some(Error::Io));
}
