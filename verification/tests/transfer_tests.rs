use pirelay::connection::Connection;
use pirelay::relay::PiRelayClient;
use pirelay::transfer::{
    chunk_total, upload_base, upload_mode, Chunk, ChunkedUpload, UploadMode, UploadStatus,
    CHUNK_SIZE, SMALL_FILE_SIZE,
};

fn client(ip: &str, port: u32, user: Option<&str>) -> PiRelayClient {
    client_at("", ip, port, user)
}

fn client_at(url: &str, ip: &str, port: u32, user: Option<&str>) -> PiRelayClient {
    let conn = Connection {
        url: url.to_string(),
        ip: ip.to_string(),
        port,
        hostname: "relay".to_string(),
    };
    PiRelayClient::new(conn, user.map(|u| u.to_string()))
}

#[test]
fn username_defaults_to_anonym() {
    assert_eq!(client("1.2.3.4", 1, None).username(), "ANONYM");
    assert_eq!(client("1.2.3.4", 1, Some("alice")).username(), "alice");
}

#[test]
fn urls() {
    let c = client("192.168.1.100", 5623, Some("alice"));
    assert_eq!(c.base_url(), "https://192.168.1.100:5623");
    assert_eq!(c.config_url(), "https://192.168.1.100:5623/config");
    assert_eq!(c.small_file_url("bob", "alice_a.txt"), "https://192.168.1.100:5623/send/bob/alice_a.txt");
    assert_eq!(c.chunk_url("bob", "alice_a.txt", 12), "https://192.168.1.100:5623/send/bob/alice_a.txt/12");
    assert_eq!(c.chunk_url("bob", "f", 0), "https://192.168.1.100:5623/send/bob/f/0");
    assert_eq!(c.receive_url(""), "https://192.168.1.100:5623/receive/");
    assert_eq!(c.receive_url("carol"), "https://192.168.1.100:5623/receive/carol");
}

#[test]
fn configured_url_is_the_base() {
    let c = client_at("https://relay.example.com", "192.168.1.100", 5623, Some("alice"));
    assert_eq!(c.base_url(), "https://relay.example.com");
    assert_eq!(c.config_url(), "https://relay.example.com/config");
    assert_eq!(c.small_file_url("bob", "f"), "https://relay.example.com/send/bob/f");
    assert_eq!(c.chunk_url("bob", "f", 3), "https://relay.example.com/send/bob/f/3");
    assert_eq!(c.receive_url(""), "https://relay.example.com/receive/");
    assert_eq!(c.receive_url("carol"), "https://relay.example.com/receive/carol");
}

#[test]
fn port_written_in_decimal() {
    assert_eq!(client("h", 0, None).base_url(), "https://h:0");
    assert_eq!(client("h", 4294967295, None).base_url(), "https://h:4294967295");
    assert_eq!(client("", 10, None).base_url(), "https://:10");
}

#[test]
fn file_ids_flatten_paths() {
    let c = client("h", 1, Some("alice"));
    assert_eq!(c.file_id("dir/sub/file.txt"), "alice_dir_sub_file.txt");
    assert_eq!(c.file_id("plain.txt"), "alice_plain.txt");
    assert_eq!(c.file_id("/abs//x"), "alice__abs__x");
    assert_eq!(c.file_id(""), "alice_");
}

#[test]
fn small_and_large_files() {
    assert_eq!(SMALL_FILE_SIZE, 5 * 1024 * 1024);
    assert_eq!(CHUNK_SIZE, 1024 * 1024);
    assert_eq!(upload_mode(0), UploadMode::Small);
    assert_eq!(upload_mode(5 * 1024 * 1024), UploadMode::Small);
    assert_eq!(upload_mode(5 * 1024 * 1024 + 1), UploadMode::Chunked);
}

#[test]
fn chunk_totals() {
    assert_eq!(chunk_total(0), 0);
    assert_eq!(chunk_total(1), 1);
    assert_eq!(chunk_total(1048576), 1);
    assert_eq!(chunk_total(1048577), 2);
    assert_eq!(chunk_total(5 * 1048576 + 1), 6);
    assert_eq!(chunk_total(usize::MAX), usize::MAX / 1048576 + 1);
}

#[test]
fn chunks_cover_the_file() {
    let len = 2 * 1048576 + 524288;
    let mut up = ChunkedUpload::new(len);
    assert_eq!(up.total_chunks(), 3);
    let mut seen = Vec::new();
    while let Some(chunk) = up.next_chunk() {
        seen.push(chunk);
        let status = up.record_reply(true);
        if seen.len() < 3 {
            assert_eq!(status, UploadStatus::InProgress);
        } else {
            assert_eq!(status, UploadStatus::Completed);
        }
    }
    assert!(up.is_finished());
    assert_eq!(
        seen,
        vec![
            Chunk { index: 0, start: 0, end: 1048576 },
            Chunk { index: 1, start: 1048576, end: 2097152 },
            Chunk { index: 2, start: 2097152, end: len },
        ]
    );
}

#[test]
fn exact_multiple_of_chunk_size() {
    let mut up = ChunkedUpload::new(2 * 1048576);
    assert_eq!(up.next_chunk(), Some(Chunk { index: 0, start: 0, end: 1048576 }));
    assert_eq!(up.record_reply(true), UploadStatus::InProgress);
    assert_eq!(up.next_chunk(), Some(Chunk { index: 1, start: 1048576, end: 2097152 }));
    assert_eq!(up.record_reply(true), UploadStatus::Completed);
    assert_eq!(up.next_chunk(), None);
}

#[test]
fn refused_chunk_ends_upload() {
    let mut up = ChunkedUpload::new(3 * 1048576);
    assert!(up.next_chunk().is_some());
    assert_eq!(up.record_reply(true), UploadStatus::InProgress);
    assert_eq!(up.next_chunk().map(|c| c.index), Some(1));
    assert_eq!(up.record_reply(false), UploadStatus::Failed);
    assert_eq!(up.next_chunk(), None);
    assert!(up.is_finished());
}

#[test]
fn empty_file_has_no_chunks() {
    let up = ChunkedUpload::new(0);
    assert_eq!(up.total_chunks(), 0);
    assert_eq!(up.next_chunk(), None);
    assert!(up.is_finished());
}

#[test]
fn upload_base_choice() {
    let p = "docs/report.pdf".to_string();
    assert_eq!(upload_base(&p, true, Some("docs".to_string())), "docs/report.pdf");
    assert_eq!(upload_base(&p, false, Some("docs".to_string())), "docs");
    assert_eq!(upload_base(&p, false, None), "docs/report.pdf");
}

#[test]
fn plan_for_a_file() {
    let c = client("h", 1, Some("bob"));
    let path = "music/album/song.mp3".to_string();
    let plan = c.plan_file_upload(&path, Some("album/song.mp3".to_string()), 6 * 1048576);
    assert_eq!(plan.relative_path, "album/song.mp3");
    assert_eq!(plan.file_id, "bob_album_song.mp3");
    assert_eq!(plan.mode, UploadMode::Chunked);
    let plan = c.plan_file_upload(&path, None, 10);
    assert_eq!(plan.relative_path, "music/album/song.mp3");
    assert_eq!(plan.file_id, "bob_music_album_song.mp3");
    assert_eq!(plan.mode, UploadMode::Small);
}

#[test]
fn chunk_bodies_join_to_the_file() {
    let len = 2 * CHUNK_SIZE + 100;
    let data: Vec<u8> = (0..len).map(|i| (i % 251) as u8).collect();
    let mut up = ChunkedUpload::new(data.len());
    let mut joined: Vec<u8> = Vec::new();
    let mut indices = Vec::new();
    while let Some(chunk) = up.next_chunk() {
        indices.push(chunk.index);
        joined.extend_from_slice(&data[chunk.start..chunk.end]);
        up.record_reply(true);
    }
    assert_eq!(indices, vec![0, 1, 2]);
    assert_eq!(joined, data);
}
