use onyx::auth::hash_password;
use onyx::common::{ChatChannel, ClientId, Direction, FailJoinReason};
use onyx::names::NameCache;
use onyx::networking::{recipients, target_admits, MessageTarget};
use onyx::server::{ChatOutcome, GameServer, PlayerEntry};

fn ids(v: &[u64]) -> Vec<ClientId> {
    v.iter().map(|&i| ClientId(i)).collect()
}

fn sorted(t: &MessageTarget) -> Vec<u64> {
    match t {
        MessageTarget::List(l) => {
            let mut v: Vec<u64> = l.iter().map(|c| c.0).collect();
            v.sort();
            v
        }
        _ => panic!("not a list"),
    }
}

fn entry(username: &str, name: &str, map: &str, password: &str) -> PlayerEntry {
    PlayerEntry {
        username: username.to_string(),
        password: hash_password(password),
        name: name.to_string(),
        map: map.to_string(),
        sprite: 0,
        in_map_editor: false,
    }
}

fn server_with(maps: &[&str]) -> GameServer {
    let existing: Vec<String> = maps.iter().map(|m| m.to_string()).collect();
    GameServer::new(&existing).0
}

#[test]
fn recipients_follow_the_target() {
    let connected = ids(&[1, 2, 3]);
    let ids_of = |t: MessageTarget| recipients(&t, &connected).iter().map(|c| c.0).collect::<Vec<u64>>();
    assert_eq!(ids_of(MessageTarget::Only(ClientId(2))), vec![2]);
    assert_eq!(ids_of(MessageTarget::Only(ClientId(9))), Vec::<u64>::new());
    assert_eq!(ids_of(MessageTarget::Exclude(ClientId(2))), vec![1, 3]);
    assert_eq!(ids_of(MessageTarget::List(ids(&[3, 9, 1]))), vec![1, 3]);
    assert_eq!(ids_of(MessageTarget::Nobody), Vec::<u64>::new());
    assert_eq!(ids_of(MessageTarget::Everybody), vec![1, 2, 3]);
    assert!(target_admits(&MessageTarget::Exclude(ClientId(1)), ClientId(2)));
    assert!(!target_admits(&MessageTarget::Exclude(ClientId(1)), ClientId(1)));
}

#[test]
fn new_server_creates_the_start_map_when_missing() {
    let (s, created) = GameServer::new(&vec!["town".to_string(), "cave".to_string(), "town".to_string()]);
    assert!(created);
    assert!(s.has_map("start"));
    assert!(s.has_map("town"));
    assert!(s.has_map("cave"));
    assert!(!s.has_map("sea"));
    let (s2, created2) = GameServer::new(&vec!["start".to_string()]);
    assert!(!created2);
    assert!(s2.has_map("start"));
    assert!(s2.peer_list().is_empty());
}

#[test]
fn validate_map_creates_once() {
    let mut s = server_with(&[]);
    assert!(s.validate_map("forest"));
    assert!(s.has_map("forest"));
    assert!(!s.validate_map("forest"));
    assert!(!s.validate_map("start"));
}

#[test]
fn connect_is_idempotent() {
    let mut s = server_with(&[]);
    s.connect(ClientId(1));
    s.connect(ClientId(2));
    s.connect(ClientId(1));
    let mut peers: Vec<u64> = s.peer_list().iter().map(|c| c.0).collect();
    peers.sort();
    assert_eq!(peers, vec![1, 2]);
    assert!(!s.is_logged_in(ClientId(1)));
}

#[test]
fn join_moves_a_player_off_a_missing_map() {
    let mut s = server_with(&["town"]);
    s.connect(ClientId(1));
    let plan = s.join_game(ClientId(1), entry("ada", "Ada", "gone", "pw"));
    assert!(plan.moved_to_start);
    assert_eq!(plan.player.map, "start");
    assert!(plan.warp.changed);
    assert!(matches!(plan.warp.left_notify, MessageTarget::Nobody));
    assert_eq!(sorted(&plan.warp.on_map), vec![1]);
    assert_eq!(plan.welcome, "Welcome to Game\u{2122}!");
    assert_eq!(plan.greeting, "Ada has joined the game.");
    assert!(matches!(plan.greeting_to, MessageTarget::Exclude(ClientId(1))));
    assert!(s.is_logged_in(ClientId(1)));
    assert_eq!(s.player(ClientId(1)).unwrap().map, "start");
}

#[test]
fn join_keeps_an_existing_map() {
    let mut s = server_with(&["town"]);
    s.connect(ClientId(1));
    s.connect(ClientId(2));
    s.join_game(ClientId(1), entry("ada", "Ada", "town", "pw"));
    let plan = s.join_game(ClientId(2), entry("bob", "Bob", "town", "pw"));
    assert!(!plan.moved_to_start);
    assert_eq!(sorted(&plan.warp.on_map), vec![1, 2]);
    assert_eq!(sorted(&s.send_to_map("town")), vec![1, 2]);
    assert_eq!(sorted(&s.send_map_except("town", ClientId(2))), vec![1]);
    assert_eq!(sorted(&s.send_to_map("start")), Vec::<u64>::new());
}

#[test]
fn login_checks_the_password() {
    let mut s = server_with(&[]);
    s.connect(ClientId(4));
    assert!(s.login(ClientId(4), Some(entry("ada", "Ada", "start", "secret")), "wrong").is_none());
    assert!(!s.is_logged_in(ClientId(4)));
    assert!(s.login(ClientId(4), None, "secret").is_none());
    assert!(!s.is_logged_in(ClientId(4)));
    let plan = s.login(ClientId(4), Some(entry("ada", "Ada", "start", "secret")), "secret").unwrap();
    assert_eq!(plan.player.name, "Ada");
    assert!(s.is_logged_in(ClientId(4)));
}

#[test]
fn create_account_refuses_but_still_creates() {
    let mut s = server_with(&[]);
    let mut names = NameCache::new();
    names.insert("Ada".to_string());
    s.connect(ClientId(1));
    let (refused, plan) = s.create_account(ClientId(1), "ada", "pw", "Ada", true, &mut names);
    assert_eq!(refused, vec![FailJoinReason::UsernameTaken, FailJoinReason::CharacterNameTaken]);
    assert_eq!(plan.player.username, "ada");
    assert_eq!(plan.player.password, hash_password("pw"));
    assert_eq!(plan.player.map, "start");
    assert_eq!(plan.player.sprite, 0);
    assert!(s.is_logged_in(ClientId(1)));

    s.connect(ClientId(2));
    let (refused, _) = s.create_account(ClientId(2), "bob", "pw", "Bob", false, &mut names);
    assert!(refused.is_empty());
    assert!(names.contains("Bob"));
}

#[test]
fn disconnect_tells_the_map_and_everyone_else() {
    let mut s = server_with(&["town"]);
    for c in 1..=3 {
        s.connect(ClientId(c));
    }
    s.join_game(ClientId(1), entry("ada", "Ada", "town", "pw"));
    s.join_game(ClientId(2), entry("bob", "Bob", "town", "pw"));
    s.join_game(ClientId(3), entry("cy", "Cy", "start", "pw"));
    let d = s.disconnect(ClientId(1)).unwrap();
    assert_eq!(d.player.name, "Ada");
    assert_eq!(sorted(&d.remove_to), vec![2]);
    assert_eq!(d.goodbye, "Ada has left the game.");
    assert!(matches!(d.goodbye_to, MessageTarget::Exclude(ClientId(1))));
    assert!(!s.is_logged_in(ClientId(1)));
    let mut peers: Vec<u64> = s.peer_list().iter().map(|c| c.0).collect();
    peers.sort();
    assert_eq!(peers, vec![2, 3]);
    // A client that never logged in leaves quietly.
    s.connect(ClientId(9));
    assert!(s.disconnect(ClientId(9)).is_none());
    assert!(s.disconnect(ClientId(9)).is_none());
}

#[test]
fn warping_between_maps() {
    let mut s = server_with(&["town"]);
    s.connect(ClientId(1));
    s.connect(ClientId(2));
    s.join_game(ClientId(1), entry("ada", "Ada", "town", "pw"));
    s.join_game(ClientId(2), entry("bob", "Bob", "town", "pw"));
    let plan = s.warp_player(ClientId(1), "start", false).unwrap();
    assert!(plan.changed);
    assert_eq!(sorted(&plan.left_notify), vec![2]);
    assert_eq!(sorted(&plan.on_map), vec![1]);
    assert_eq!(s.player(ClientId(1)).unwrap().map, "start");
    // Warping onto the map one is on only moves the player.
    let same = s.warp_player(ClientId(1), "start", false).unwrap();
    assert!(!same.changed);
    assert!(matches!(same.left_notify, MessageTarget::Nobody));
    assert_eq!(sorted(&same.on_map), vec![1]);
    // A client that does not play is not warped.
    assert!(s.warp_player(ClientId(7), "start", false).is_none());
}

fn chat_text(o: &ChatOutcome) -> (ChatChannel, String) {
    match o {
        ChatOutcome::Chat { channel, text, .. } => (*channel, text.clone()),
        _ => panic!("not a chat line"),
    }
}

#[test]
fn chat_channels_reach_their_hearers() {
    let mut s = server_with(&["town"]);
    for c in 1..=3 {
        s.connect(ClientId(c));
    }
    s.join_game(ClientId(1), entry("ada", "Ada", "town", "pw"));
    s.join_game(ClientId(2), entry("bob", "Bob", "town", "pw"));
    s.join_game(ClientId(3), entry("cy", "Cy", "start", "pw"));

    let say = s.process_chat(ClientId(1), ChatChannel::Say, "hi all");
    assert_eq!(chat_text(&say), (ChatChannel::Say, "Ada: hi all".to_string()));
    if let ChatOutcome::Chat { to, .. } = &say {
        assert_eq!(sorted(to), vec![1, 2]);
    }

    let global = s.process_chat(ClientId(3), ChatChannel::Global, "yo");
    assert_eq!(chat_text(&global), (ChatChannel::Global, "Cy: yo".to_string()));
    assert!(matches!(global, ChatOutcome::Chat { to: MessageTarget::Everybody, .. }));

    let server = s.process_chat(ClientId(3), ChatChannel::Server, "restart soon");
    assert_eq!(chat_text(&server), (ChatChannel::Server, "restart soon".to_string()));

    assert!(matches!(s.process_chat(ClientId(1), ChatChannel::Echo, "x"), ChatOutcome::Ignored));
    assert!(matches!(s.process_chat(ClientId(1), ChatChannel::Error, "x"), ChatOutcome::Ignored));
}

#[test]
fn chat_commands() {
    let mut s = server_with(&["town"]);
    s.connect(ClientId(1));
    s.connect(ClientId(2));
    s.join_game(ClientId(1), entry("ada", "Ada", "town", "pw"));
    s.join_game(ClientId(2), entry("bob", "Big Bob", "town", "pw"));

    let usage = s.process_chat(ClientId(1), ChatChannel::Say, "/warp  ");
    assert_eq!(chat_text(&usage), (ChatChannel::Error, "Usage: /warp <map id>".to_string()));
    assert!(matches!(usage, ChatOutcome::Chat { to: MessageTarget::Only(ClientId(1)), .. }));

    match s.process_chat(ClientId(1), ChatChannel::Say, "/warp dungeon") {
        ChatOutcome::Warped { map, created, plan } => {
            assert_eq!(map, "dungeon");
            assert!(created);
            assert!(plan.changed);
            assert_eq!(sorted(&plan.left_notify), vec![2]);
            assert_eq!(sorted(&plan.on_map), vec![1]);
        }
        _ => panic!("expected a warp"),
    }
    assert!(s.has_map("dungeon"));
    assert_eq!(s.player(ClientId(1)).unwrap().map, "dungeon");

    match s.process_chat(ClientId(1), ChatChannel::Say, "/sprite Big Bob 5") {
        ChatOutcome::SpriteChanged { client, player, to } => {
            assert_eq!(client, ClientId(2));
            assert_eq!(player.sprite, 5);
            assert_eq!(sorted(&to), vec![2]);
        }
        _ => panic!("expected a sprite change"),
    }
    assert_eq!(s.player(ClientId(2)).unwrap().sprite, 5);

    let missing = s.process_chat(ClientId(1), ChatChannel::Say, "/sprite Nobody 5");
    assert_eq!(
        chat_text(&missing),
        (
            ChatChannel::Error,
            "Error: Could not find the player, are they online?\nUsage: /sprite <player name> <sprite #>".to_string()
        )
    );
    let bad = s.process_chat(ClientId(1), ChatChannel::Say, "/sprite Bob");
    assert_eq!(
        chat_text(&bad),
        (ChatChannel::Error, "Error: Wrong number of arguments\nUsage: /sprite <player name> <sprite #>".to_string())
    );
    let nan = s.process_chat(ClientId(1), ChatChannel::Say, "/sprite Bob five");
    assert_eq!(
        chat_text(&nan),
        (ChatChannel::Error, "Error: Invalid sprite, it must be a number\nUsage: /sprite <player name> <sprite #>".to_string())
    );
}

#[test]
fn map_editor_flag_is_announced_on_the_map() {
    let mut s = server_with(&["town"]);
    s.connect(ClientId(1));
    s.connect(ClientId(2));
    s.join_game(ClientId(1), entry("ada", "Ada", "town", "pw"));
    s.join_game(ClientId(2), entry("bob", "Bob", "start", "pw"));
    let to = s.set_map_editor(ClientId(1), true);
    assert_eq!(sorted(&to), vec![1]);
    assert!(s.player(ClientId(1)).unwrap().in_map_editor);
    s.set_map_editor(ClientId(1), false);
    assert!(!s.player(ClientId(1)).unwrap().in_map_editor);
}

#[test]
fn connect_then_leave_restores_the_server() {
    let mut s = server_with(&["town"]);
    s.connect(ClientId(1));
    let before: Vec<u64> = s.peer_list().iter().map(|c| c.0).collect();
    s.connect(ClientId(5));
    assert!(s.disconnect(ClientId(5)).is_none());
    let after: Vec<u64> = s.peer_list().iter().map(|c| c.0).collect();
    assert_eq!(before, after);
    assert!(s.has_map("town"));
    assert!(!s.is_logged_in(ClientId(5)));
}

#[test]
fn edge_warps_by_direction() {
    let edges = onyx::server::EdgeWarps {
        north: Some("cave".to_string()),
        east: None,
        south: Some("sea".to_string()),
        west: None,
    };
    assert_eq!(edges.toward(Direction::North), Some("cave".to_string()));
    assert_eq!(edges.toward(Direction::East), None);
    assert_eq!(edges.toward(Direction::South), Some("sea".to_string()));
    assert_eq!(edges.toward(Direction::West), None);
}
