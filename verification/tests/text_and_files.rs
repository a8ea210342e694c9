use onyx::auth::{hash_password, password_matches};
use onyx::chat::{display_line, parse_command, trim_chars, ChatCommand, ChatWindow};
use onyx::common::ChatChannel;
use onyx::names::NameCache;
use onyx::paths::{client_path, server_path};
use onyx::text::{concat_str, str_eq};

#[test]
fn password_hash_is_base64_of_sha256() {
    assert_eq!(hash_password("password"), "XohImNooBHFR0OVvjcYpJ3NgPQ1qq73WKhHvch0VQtg=");
    assert_eq!(hash_password("hunter2"), "9S+9MrKzuG/4jvbEkGKChfSCrxXdyylUH5S89Saj9sc=");
    assert_eq!(hash_password(""), "47DEQpj8HBSa+/TImW+5JCeuQeRkm5NMpJWZG3hSuFU=");
    assert_eq!(hash_password("anything").len(), 44);
}

#[test]
fn password_check_accepts_only_the_right_password() {
    let stored = hash_password("hunter2");
    assert!(password_matches(&stored, "hunter2"));
    assert!(!password_matches(&stored, "hunter3"));
    assert!(!password_matches("hunter2", "hunter2"));
}

#[test]
fn runtime_paths() {
    assert_eq!(client_path("/rt", "settings.toml"), "/rt/client/settings.toml");
    assert_eq!(server_path("/rt", "names.cache"), "/rt/server/names.cache");
    assert_eq!(server_path("/rt/", "names.cache"), "/rt/server/names.cache");
    assert_eq!(server_path("", "names.cache"), "server/names.cache");
    assert_eq!(server_path("/rt", "/etc/onyx"), "/etc/onyx");
    assert_eq!(NameCache::path("/rt"), "/rt/server/names.cache");
}

#[test]
fn name_cache_insert_and_contains() {
    let mut cache = NameCache::new();
    assert!(!cache.contains("Ada"));
    cache.insert("Ada".to_string());
    cache.insert("Bob".to_string());
    cache.insert("Ada".to_string());
    assert!(cache.contains("Ada"));
    assert!(cache.contains("Bob"));
    assert!(!cache.contains("ada"));
    assert_eq!(cache.to_contents(), "Ada\nBob");
}

#[test]
fn name_cache_round_trip() {
    let mut cache = NameCache::new();
    for n in ["Ada", "Bob", "Cy D"] {
        cache.insert(n.to_string());
    }
    let back = NameCache::from_contents(&cache.to_contents());
    for n in ["Ada", "Bob", "Cy D"] {
        assert!(back.contains(n));
    }
    assert!(!back.contains(""));
    assert_eq!(back.to_contents(), cache.to_contents());
}

#[test]
fn name_cache_reads_lines() {
    let cache = NameCache::from_contents("Ada\r\nBob\n\nCy\n");
    assert!(cache.contains("Ada"));
    assert!(cache.contains("Bob"));
    assert!(cache.contains("Cy"));
    assert!(cache.contains(""));
    assert!(!cache.contains("Ada\r"));
    let empty = NameCache::from_contents("");
    assert!(!empty.contains(""));
}

#[test]
fn text_helpers() {
    assert_eq!(concat_str("ab", "cd"), "abcd");
    assert!(str_eq("x y", "x y"));
    assert!(!str_eq("x", "x "));
    let t: String = trim_chars(&"  a b \t\n".chars().collect()).into_iter().collect();
    assert_eq!(t, "a b");
}

#[test]
fn commands_are_read_like_the_server() {
    assert_eq!(parse_command("hello"), ChatCommand::NotACommand);
    assert_eq!(parse_command("/warp  town "), ChatCommand::Warp("town".to_string()));
    assert_eq!(parse_command("/warp"), ChatCommand::WarpUsage);
    assert_eq!(parse_command("/warp   "), ChatCommand::WarpUsage);
    assert_eq!(parse_command("/warpzone"), ChatCommand::Warp("zone".to_string()));
    assert_eq!(
        parse_command("/sprite Big Bob 12"),
        ChatCommand::Sprite { who: "Big Bob".to_string(), sprite: 12 }
    );
    assert_eq!(parse_command("/sprite Bob +7"), ChatCommand::Sprite { who: "Bob".to_string(), sprite: 7 });
    assert_eq!(parse_command("/sprite Bob"), ChatCommand::SpriteError("Wrong number of arguments".to_string()));
    assert_eq!(
        parse_command("/sprite Bob x1"),
        ChatCommand::SpriteError("Invalid sprite, it must be a number".to_string())
    );
    assert_eq!(
        parse_command("/sprite Bob 4294967296"),
        ChatCommand::SpriteError("Invalid sprite, it must be a number".to_string())
    );
    assert_eq!(parse_command("/sprite Bob 4294967295"), ChatCommand::Sprite { who: "Bob".to_string(), sprite: 4294967295 });
    assert_eq!(parse_command(" /warp town"), ChatCommand::NotACommand);
}

#[test]
fn chat_lines_are_tagged_by_channel() {
    assert_eq!(display_line(ChatChannel::Server, "hi"), "[Server] hi");
    assert_eq!(display_line(ChatChannel::Say, "Ada: hi"), "[Say] Ada: hi");
    assert_eq!(display_line(ChatChannel::Global, "Ada: hi"), "[Global] Ada: hi");
    assert_eq!(display_line(ChatChannel::Echo, "hi"), "hi");
    assert_eq!(display_line(ChatChannel::Error, "oops"), "oops");
}

#[test]
fn chat_window_sends_a_line_once() {
    let mut w = ChatWindow::new();
    assert!(w.message().is_none());
    w.insert(ChatChannel::Server, "Welcome".to_string());
    w.set_draft("hello".to_string());
    assert_eq!(w.draft_text(), "hello");
    w.submit();
    assert_eq!(w.draft_text(), "");
    assert_eq!(w.message(), Some((ChatChannel::Say, "hello".to_string())));
    assert!(w.message().is_none());
    assert_eq!(w.buffer(), &vec![(ChatChannel::Server, "Welcome".to_string())]);
}

#[test]
fn file_locations() {
    assert_eq!(onyx::paths::config_path("/rt"), "/rt/server/config.toml");
    assert_eq!(onyx::paths::player_path("/rt", "ada"), "/rt/server/players/ada.toml");
    assert_eq!(onyx::paths::map_path("/rt", "start"), "/rt/server/maps/start.bin");
    assert_eq!(onyx::paths::asset_path("/rt", "sprites.png"), "/rt/client/assets/sprites.png");
    assert_eq!(onyx::paths::asset_path("/rt", "/tmp/x.png"), "/tmp/x.png");
    assert_eq!(onyx::paths::join("a", "b"), "a/b");
    assert_eq!(onyx::paths::join("a/", "b"), "a/b");
    assert_eq!(onyx::paths::join("", "b"), "b");
}
