use sha1::{Digest, Sha1};
use trident::download_manager::{DownloadManager, PieceProgress};
use trident::metainfo::{info_hash, Info, Torrent};
use trident::tracker_communication::PeerInfo;
use trident::BLOCK_SIZE;

fn torrent(piece_length: u64, length: Option<i64>, contents: &[Vec<u8>]) -> Torrent {
    let mut pieces = Vec::new();
    for c in contents {
        pieces.extend_from_slice(&Sha1::digest(c));
    }
    Torrent {
        info: Info {
            name: String::from("out.bin"),
            pieces,
            piece_length,
            md5sum: None,
            length,
            files: None,
            private: None,
            path: None,
            root_hash: None,
        },
        announce: None,
        encoding: None,
        http_seeds: None,
        announce_list: None,
        creation_date: None,
        comment: None,
        created_by: None,
    }
}

fn filled(index: u64, content: &[u8]) -> PieceProgress {
    let mut p = PieceProgress::new(index, content.len() as u64);
    for (k, chunk) in content.chunks(BLOCK_SIZE as usize).enumerate() {
        p.blocks[k][..chunk.len()].copy_from_slice(chunk);
    }
    p
}

fn content(seed: u8, len: usize) -> Vec<u8> {
    (0..len).map(|x| (x as u8).wrapping_mul(31).wrapping_add(seed)).collect()
}

#[test]
fn new_piece_progress_blocks() {
    let p = PieceProgress::new(5, BLOCK_SIZE * 3 + 1000);
    assert_eq!(p.index, 5);
    assert_eq!(p.blocks.len(), 4);
    assert!(p.blocks.iter().all(|b| b.len() == 16384 && b.iter().all(|x| *x == 0)));
    assert_eq!(PieceProgress::new(0, 32768).blocks.len(), 2);
    assert_eq!(PieceProgress::new(0, 0).blocks.len(), 0);
}

#[test]
fn manager_queue_and_bitmap() {
    let pieces = vec![content(1, 32768), content(2, 32768), content(3, 100)];
    let m = DownloadManager::from(torrent(32768, Some(65636), &pieces));
    assert_eq!(m.work_queue.len(), 3);
    assert_eq!(m.work_queue[2].index, 2);
    assert_eq!(m.work_queue[0].blocks.len(), 2);
    assert_eq!(m.work_queue[2].blocks.len(), 2);
    assert_eq!(m.pieces.0, vec![0u8]);
    assert_eq!(m.torrent.info.piece_size(2), 100);
    assert_eq!(m.torrent.info.piece_size(1), 32768);
}

#[test]
fn verify_accepts_matching_piece() {
    let pieces = vec![content(1, 32768), content(2, 32768)];
    let m = DownloadManager::from(torrent(32768, None, &pieces));
    assert!(m.verify_piece(&filled(0, &pieces[0])));
    assert!(m.verify_piece(&filled(1, &pieces[1])));
    assert!(!m.verify_piece(&filled(1, &pieces[0])));
}

#[test]
fn verify_rejects_any_flipped_byte() {
    let pieces = vec![content(9, 32768)];
    let m = DownloadManager::from(torrent(32768, None, &pieces));
    for at in [0usize, 1, 16383, 16384, 20000, 32767] {
        let mut p = filled(0, &pieces[0]);
        let k = at / 16384;
        p.blocks[k][at % 16384] ^= 0x01;
        assert!(!m.verify_piece(&p));
    }
}

#[test]
fn verify_cuts_last_piece_to_its_length() {
    let pieces = vec![content(4, 20000), content(5, 1000)];
    let m = DownloadManager::from(torrent(20000, Some(21000), &pieces));
    let mut last = filled(1, &pieces[1]);
    last.blocks[0][5000] = 0x77;
    assert!(m.verify_piece(&last));
    let mut first = filled(0, &pieces[0]);
    first.blocks[1][10000] = 0x55;
    assert!(m.verify_piece(&first));
}

#[test]
fn digest_matches_recorded_hash() {
    let pieces = vec![content(1, 10), content(2, 10)];
    let m = DownloadManager::from(torrent(10, None, &pieces));
    let d = Sha1::digest(&pieces[1]).to_vec();
    assert!(m.digest_matches(1, &d));
    assert!(!m.digest_matches(0, &d));
    assert!(!m.digest_matches(1, &d[..19]));
}

#[test]
fn submit_marks_and_places_pieces() {
    let pieces = vec![content(1, 32768), content(2, 32768), content(3, 32768)];
    let mut m = DownloadManager::from(torrent(32768, None, &pieces));
    let mut file = vec![0u8; 3 * 32768];
    for index in [0u64, 2] {
        let w = m.submit_piece(filled(index, &pieces[index as usize])).unwrap();
        assert_eq!(w.offset, index * 32768);
        assert!(!m.pieces.has_piece(&(index as usize)));
        let at = w.offset as usize;
        file[at..at + w.data.len()].copy_from_slice(&w.data);
        m.mark_committed(index);
    }
    assert_eq!(&file[..32768], &pieces[0][..]);
    assert!(file[32768..65536].iter().all(|b| *b == 0));
    assert_eq!(&file[65536..], &pieces[2][..]);
    assert_eq!(m.pieces.0, vec![0b101u8]);
    assert!(m.pieces.has_piece(&0) && !m.pieces.has_piece(&1) && m.pieces.has_piece(&2));
}

#[test]
fn submit_rejects_bad_piece() {
    let pieces = vec![content(1, 100)];
    let m = DownloadManager::from(torrent(100, None, &pieces));
    let mut bad = filled(0, &pieces[0]);
    bad.blocks[0][50] ^= 0xff;
    assert!(m.submit_piece(bad).is_none());
    assert_eq!(m.pieces.0, vec![0u8]);
}

#[test]
fn assign_work_pairs_from_the_back() {
    let pieces = vec![content(1, 10), content(2, 10), content(3, 10)];
    let mut m = DownloadManager::from(torrent(10, None, &pieces));
    let peer = |n: i64| PeerInfo { peer_id: None, ip: String::from("10.0.0.1"), port: n };
    let mut peers = vec![peer(1), peer(2)];
    let work = m.assign_work(&mut peers, 4);
    assert_eq!(work.len(), 2);
    assert_eq!(work[0].piece.index, 2);
    assert_eq!(work[0].peer.port, 2);
    assert_eq!(work[1].piece.index, 1);
    assert_eq!(work[1].peer.port, 1);
    assert_eq!(m.work_queue.len(), 1);
    assert!(peers.is_empty());
    let mut more = vec![peer(3), peer(4), peer(5)];
    let work = m.assign_work(&mut more, 4);
    assert_eq!(work.len(), 1);
    assert_eq!(more.len(), 2);
    assert!(m.work_queue.is_empty());
}

#[test]
fn info_hash_is_sha1_of_info_bytes() {
    let d = info_hash(b"abc");
    assert_eq!(
        d,
        vec![
            0xa9, 0x99, 0x3e, 0x36, 0x47, 0x06, 0x81, 0x6a, 0xba, 0x3e, 0x25, 0x71, 0x78, 0x50,
            0xc2, 0x6c, 0x9c, 0xd0, 0xd8, 0x9d
        ]
    );
}

#[test]
fn piece_count_and_last_piece_size() {
    let pieces = vec![content(1, 10), content(2, 10), content(3, 4)];
    let t = torrent(10, Some(24), &pieces);
    assert_eq!(t.info.piece_count(), 3);
    assert_eq!(t.info.piece_size(0), 10);
    assert_eq!(t.info.piece_size(2), 4);
    let u = torrent(10, None, &pieces);
    assert_eq!(u.info.piece_size(2), 10);
    let v = torrent(10, Some(40), &pieces);
    assert_eq!(v.info.piece_size(2), 10);
}

#[test]
fn queue_entries_use_nominal_length() {
    let pieces = vec![content(1, 32768), content(2, 100)];
    let m = DownloadManager::from(torrent(32768, Some(32868), &pieces));
    assert_eq!(m.work_queue[1].blocks.len(), 2);
    let mut last = m.work_queue[1].blocks.clone();
    last[0][..100].copy_from_slice(&pieces[1]);
    let p = PieceProgress { index: 1, blocks: last };
    let w = m.submit_piece(p).unwrap();
    assert_eq!(w.offset, 32768);
    assert_eq!(w.data, pieces[1]);
}

#[test]
fn mark_committed_records_only_that_piece() {
    let pieces = vec![content(1, 10), content(2, 10), content(3, 10)];
    let mut m = DownloadManager::from(torrent(10, None, &pieces));
    m.mark_committed(1);
    assert_eq!(m.pieces.0, vec![0b010u8]);
    m.mark_committed(1);
    assert_eq!(m.pieces.0, vec![0b010u8]);
}
