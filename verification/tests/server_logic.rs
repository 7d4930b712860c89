use content::config::{listen_address, parse_port, resolve_config};
use content::dir_index::{entry_path, is_index_candidate, last_dir_of, scan_entry, select_index, DirEntryInfo};
use content::javascript::{_create_snapshot, deserialize_error_message, eval_error_message, script_text};
use content::lua::{run_lua_chunk, settle_lua_result};
use content::mime::{content_type_for, last_piece_of, MimeTable};
use content::path::clean_path;
use content::response::{api_reply, error_reply, request_target, route_for, PathKind, Route, StatOutcome};
use content::shared::{describe_with, SharedData};
use content::text::{chars_of, decimal_string, string_of};

use std::path::{Component, Path, PathBuf};

/// The cleaning done with `std::path`, used to compare against.
fn clean_with_std(raw: &str) -> String {
    let full_path = raw.replace("\\", "/");
    let full_path = full_path.split(|c| c == '?' || c == '#').next().unwrap_or("");
    let mut cleaned = PathBuf::new();
    for comp in Path::new(full_path).components() {
        match comp {
            Component::Normal(s) => cleaned.push(s),
            Component::RootDir => cleaned.push("/"),
            _ => {}
        }
    }
    cleaned.to_string_lossy().into_owned().replace("\\", "/")
}

const SAMPLE_PATHS: &[&str] = &[
    "",
    "/",
    "//",
    "/index.html",
    "/a/b/c",
    "a/b",
    "./a",
    "../a",
    "/../etc/passwd",
    "/a/../../b",
    "\\a\\..\\b?x=1",
    "a/./b//c#frag",
    "/docs/?q=1#top",
    "?only=query",
    "#frag",
    "/a/.../b",
    "/.hidden/file.",
    "/api/x",
    "/ünï/cödé",
    "/a//",
    "./",
    "..",
    "/x/./y/../z",
];

#[test]
fn clean_path_examples() {
    assert_eq!(clean_path("/a/b"), "/a/b");
    assert_eq!(clean_path("/../etc/passwd"), "/etc/passwd");
    assert_eq!(clean_path("\\a\\..\\b?x=1"), "/a/b");
    assert_eq!(clean_path("a/./b//c#frag"), "a/b/c");
    assert_eq!(clean_path(""), "");
    assert_eq!(clean_path("/"), "/");
    assert_eq!(clean_path("./"), "");
    assert_eq!(clean_path("/index.html?v=2"), "/index.html");
    assert_eq!(clean_path("/a/.../b"), "/a/.../b");
}

#[test]
fn clean_path_agrees_with_std_path() {
    for raw in SAMPLE_PATHS {
        assert_eq!(clean_path(raw), clean_with_std(raw), "raw path {:?}", raw);
    }
}

#[test]
fn clean_path_is_idempotent_on_samples() {
    for raw in SAMPLE_PATHS {
        let once = clean_path(raw);
        assert_eq!(clean_path(&once), once, "raw path {:?}", raw);
    }
}

#[test]
fn cleaned_paths_have_no_dot_pieces() {
    for raw in SAMPLE_PATHS {
        let c = clean_path(raw);
        assert!(!c.contains('\\') && !c.contains('?') && !c.contains('#'));
        assert!(c.split('/').all(|p| p != "." && p != ".."), "raw path {:?}", raw);
    }
}

#[test]
fn request_target_places_path_under_serve_dir() {
    let t = request_target("./public", "/api/x");
    assert_eq!(t.clean_path, "/api/x");
    assert_eq!(t.full_path, "./public/api/x");
    assert!(t.is_api);
    let t = request_target("./public", "/docs/../../secret");
    assert_eq!(t.full_path, "./public/docs/secret");
    assert!(!t.is_api);
    let t = request_target("./public", "/apix");
    assert!(t.is_api);
    let t = request_target("./public", "api");
    assert!(!t.is_api);
    let t = request_target("./public", "");
    assert_eq!(t.full_path, "./public");
}

#[test]
fn route_for_each_outcome() {
    assert_eq!(route_for(StatOutcome::Found(PathKind::File)), Route::ServeFile);
    assert_eq!(route_for(StatOutcome::Found(PathKind::Directory)), Route::ServeDirectory);
    assert_eq!(route_for(StatOutcome::Found(PathKind::Other)), Route::Fail(409));
    assert_eq!(route_for(StatOutcome::NotFound), Route::Fail(404));
    assert_eq!(route_for(StatOutcome::Failed), Route::Fail(500));
}

#[test]
fn error_reply_for_known_codes() {
    let r = error_reply(404, "No such file or directory (os error 2)");
    assert_eq!((r.status, r.reason.as_str(), r.content_type.as_str(), r.body.as_str()),
        (404, "Not found", "text/plain", "not found"));
    let r = error_reply(409, "File is unusable");
    assert_eq!((r.status, r.reason.as_str(), r.body.as_str()), (409, "Conflict", "conflict"));
    let r = error_reply(500, "permission denied");
    assert_eq!((r.status, r.reason.as_str(), r.body.as_str()),
        (500, "Internal Server Error", "internal server error"));
}

#[test]
fn error_reply_for_other_codes() {
    let r = error_reply(418, "teapot");
    assert_eq!(r.status, 418);
    assert_eq!(r.reason, "418: teapot");
    assert_eq!(r.body, "internal server error");
    assert_eq!(r.content_type, "text/plain");
    let r = error_reply(0, "");
    assert_eq!(r.reason, "0: ");
}

#[test]
fn api_reply_texts() {
    let r = api_reply("./public/api/hello");
    assert_eq!(r.content_type, "text/plain");
    assert_eq!(r.first_chunk, "test write ./public/api/hello\n");
    assert_eq!(r.pause_ms, 1000);
    assert_eq!(r.last_chunk, "test close");
}

#[test]
fn content_types_of_common_files() {
    let mime = MimeTable::with_common_types();
    assert_eq!(mime.len(), 8);
    assert_eq!(content_type_for(&mime, "./public/index.html"), "text/html");
    assert_eq!(content_type_for(&mime, "./public/app.min.js"), "application/javascript");
    assert_eq!(content_type_for(&mime, "./public/a.jpeg"), "image/jpeg");
    assert_eq!(content_type_for(&mime, "./public/archive.tar.gz"), "application/octet-stream");
    assert_eq!(content_type_for(&mime, "./public/README"), "application/octet-stream");
    assert_eq!(content_type_for(&mime, "./public/photo.JPG"), "application/octet-stream");
    assert_eq!(content_type_for(&mime, "./public/dir.d/"), "application/octet-stream");
}

#[test]
fn mime_table_insert_and_get() {
    let mut m = MimeTable::new();
    assert_eq!(m.len(), 0);
    assert_eq!(m.get("txt"), None);
    assert_eq!(m.insert("txt", "text/plain"), None);
    assert_eq!(m.get("txt"), Some("text/plain".to_string()));
    assert_eq!(m.insert("txt", "text/markdown"), Some("text/plain".to_string()));
    assert_eq!(m.get("txt"), Some("text/markdown".to_string()));
    assert_eq!(m.insert("svg", "image/svg+xml"), None);
    assert_eq!(m.len(), 2);
    assert_eq!(m.get("svg"), Some("image/svg+xml".to_string()));
    assert_eq!(m.get("SVG"), None);
}

#[test]
fn extension_is_text_after_last_dot() {
    assert_eq!(string_of(&last_piece_of("a.b.c", '.')), "c");
    assert_eq!(string_of(&last_piece_of("abc", '.')), "abc");
    assert_eq!(string_of(&last_piece_of("abc.", '.')), "");
    assert_eq!(string_of(&last_piece_of("", '.')), "");
}

#[test]
fn last_dir_component() {
    assert_eq!(last_dir_of("./public/docs"), "docs");
    assert_eq!(last_dir_of("./public/docs/"), "");
    assert_eq!(last_dir_of("public"), "public");
}

#[test]
fn index_candidates() {
    assert!(is_index_candidate("index.html", "./public/docs"));
    assert!(is_index_candidate("index", "./public/docs"));
    assert!(is_index_candidate("docs.md", "./public/docs"));
    assert!(!is_index_candidate("indexes.html", "./public/docs"));
    assert!(!is_index_candidate("readme.md", "./public/docs"));
    assert!(!is_index_candidate("readme.md", "./public/docs/"));
    assert!(is_index_candidate("index.htm", "./public/docs/"));
}

fn entry(name: &str, is_file: bool) -> DirEntryInfo {
    DirEntryInfo { name: name.to_string(), is_file }
}

#[test]
fn select_index_takes_first_qualifying_file() {
    let entries = vec![entry("a.css", true), entry("index", false), entry("docs.txt", true), entry("index.html", true)];
    assert_eq!(select_index("./public/docs", &entries), Some(2));
    let entries = vec![entry("a.css", true), entry("index.d", false)];
    assert_eq!(select_index("./public/docs", &entries), None);
    assert_eq!(select_index("./public/docs", &vec![]), None);
}

#[test]
fn entry_paths_join_like_std() {
    assert_eq!(entry_path("./public/docs", "index.html"), "./public/docs/index.html");
    assert_eq!(entry_path("./public/docs/", "index.html"), "./public/docs/index.html");
    assert_eq!(entry_path("", "index.html"), "index.html");
    assert_eq!(entry_path("./public", "/abs"), "/abs");
    for (d, n) in [("./public/docs", "index.html"), ("./public/docs/", "x"), ("", "y"), ("a", "/b")] {
        assert_eq!(entry_path(d, n), Path::new(d).join(n).to_string_lossy());
    }
}

#[test]
fn port_parsing_matches_std() {
    let samples = ["8080", "+80", "65535", "65536", "-1", "", "+", "007", "80a", " 80", "99999999999", "0", "+-1"];
    for s in samples {
        assert_eq!(parse_port(s), s.parse::<u16>().ok(), "text {:?}", s);
    }
    assert_eq!(parse_port("3000"), Some(3000));
    assert_eq!(parse_port("65536"), None);
}

#[test]
fn port_text_round_trips() {
    for p in [0u16, 7, 80, 443, 3000, 8080, 65535] {
        assert_eq!(parse_port(&decimal_string(p as u64)), Some(p));
    }
}

#[test]
fn decimal_strings() {
    assert_eq!(decimal_string(0), "0");
    assert_eq!(decimal_string(65535), "65535");
    assert_eq!(decimal_string(u64::MAX), u64::MAX.to_string());
}

#[test]
fn listen_address_is_host_colon_port() {
    assert_eq!(listen_address("0.0.0.0", 3000), "0.0.0.0:3000");
    assert_eq!(listen_address("localhost", 80), "localhost:80");
}

#[test]
fn config_defaults() {
    let c = resolve_config(None, None, None, &vec!["server".to_string()]);
    assert_eq!((c.serve_dir.as_str(), c.port, c.host.as_str()), ("./public", 3000, "0.0.0.0"));
}

#[test]
fn config_from_environment() {
    let c = resolve_config(Some("/srv".to_string()), Some("8080".to_string()), Some("127.0.0.1".to_string()),
        &vec!["server".to_string()]);
    assert_eq!((c.serve_dir.as_str(), c.port, c.host.as_str()), ("/srv", 8080, "127.0.0.1"));
    let c = resolve_config(None, Some("eighty".to_string()), None, &vec!["server".to_string()]);
    assert_eq!(c.port, 3000);
}

#[test]
fn config_from_arguments_wins() {
    let args: Vec<String> = ["server", "./site", "9000", "::1"].iter().map(|s| s.to_string()).collect();
    let c = resolve_config(Some("/srv".to_string()), Some("8080".to_string()), Some("127.0.0.1".to_string()), &args);
    assert_eq!((c.serve_dir.as_str(), c.port, c.host.as_str()), ("./site", 9000, "::1"));
    let args: Vec<String> = ["server", "./site", "70000"].iter().map(|s| s.to_string()).collect();
    let c = resolve_config(None, Some("8080".to_string()), None, &args);
    assert_eq!((c.serve_dir.as_str(), c.port, c.host.as_str()), ("./site", 3000, "0.0.0.0"));
}

#[test]
fn shared_data_description() {
    let d = SharedData { mime: MimeTable::with_common_types(), serve_dir: "./public".to_string(), has_tls_acceptor: false };
    assert_eq!(d.describe(), "SharedData { mime: 8, serve_dir: \"./public\", tls_acceptor: \"None\" }");
    let d = SharedData { mime: MimeTable::new(), serve_dir: "a\"b".to_string(), has_tls_acceptor: true };
    assert_eq!(d.describe(), "SharedData { mime: 0, serve_dir: \"a\\\"b\", tls_acceptor: \"Some(TlsAcceptor)\" }");
}

#[test]
fn script_text_from_bytes() {
    assert_eq!(script_text(b"1 + 1"), "1 + 1");
    assert_eq!(script_text("\"ü\"".as_bytes()), "\"ü\"");
    assert_eq!(script_text(&[0xff, 0x41]), "");
    assert_eq!(script_text(b""), "");
}

#[test]
fn script_error_messages() {
    assert_eq!(eval_error_message("SyntaxError"), "Evaling error: SyntaxError");
    assert_eq!(deserialize_error_message("x"), "Cannot deserialize value: x");
}

#[test]
fn snapshot_is_empty() {
    assert!(_create_snapshot().is_empty());
}

#[test]
fn lua_results_settle() {
    assert_eq!(settle_lua_result(Some(Ok("v".to_string()))), Ok("v".to_string()));
    assert_eq!(settle_lua_result(Some(Err("e".to_string()))), Err("e".to_string()));
    assert_eq!(settle_lua_result(None), Err("could create task".to_string()));
}

#[test]
fn chars_round_trip() {
    let v = chars_of("héllo");
    assert_eq!(v, vec!['h', 'é', 'l', 'l', 'o']);
    assert_eq!(string_of(&v), "héllo");
}

#[test]
fn description_from_parts() {
    assert_eq!(describe_with(3, "\"/srv\"", false), "SharedData { mime: 3, serve_dir: \"/srv\", tls_acceptor: \"None\" }");
    assert_eq!(describe_with(0, "x", true), "SharedData { mime: 0, serve_dir: x, tls_acceptor: \"Some(TlsAcceptor)\" }");
}

#[test]
fn entry_path_ends_with_entry_name() {
    for dir in ["./public/docs", "./public/docs/", "", "/"] {
        assert_eq!(last_dir_of(&entry_path(dir, "index.html")), "index.html");
    }
}

#[test]
fn scan_entry_steps() {
    assert!(scan_entry("./public/docs", &entry("index.html", true)));
    assert!(!scan_entry("./public/docs", &entry("index.html", false)));
    assert!(scan_entry("./public/docs", &entry("docs-intro.md", true)));
    assert!(!scan_entry("./public/docs", &entry("style.css", true)));
}

#[test]
fn lua_chunks_run() {
    assert_eq!(run_lua_chunk("return 'a' .. 'b'"), Ok("ab".to_string()));
    assert_eq!(run_lua_chunk("return 1 + 2"), Ok("3".to_string()));
    assert!(run_lua_chunk("error('boom')").is_err());
    assert!(run_lua_chunk("this is not lua").is_err());
}
