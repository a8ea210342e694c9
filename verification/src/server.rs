//! The decisions the game server takes: who is connected and who is
//! playing, which maps exist, who hears what, and what follows from a
//! player's request. Sockets, files, positions and movement stay with the
//! program that runs the server; it carries out the plans made here.
use vstd::prelude::*;
use vstd::string::StringSliceAdditionalSpecFns;

use crate::auth::{base64, hash_password, matches_stored, password_hash, password_matches, sha256};
use crate::chat::{parse_command, spec_parse_command, ChatCommand, CommandView};
use crate::common::{ChatChannel, ClientId, Direction, FailJoinReason};
use crate::names::NameCache;
use crate::networking::MessageTarget;
use crate::text::{concat_str, str_eq};

verus! {

/// The map that always exists, where new characters start.
pub open spec fn start_map() -> Seq<char> {
    "start"@
}

/// A player in the game, as far as the server's decisions go.
#[derive(Clone, Debug)]
pub struct PlayerEntry {
    pub username: String,
    /// The stored password hash.
    pub password: String,
    pub name: String,
    /// The map the player is on.
    pub map: String,
    pub sprite: u32,
    pub in_map_editor: bool,
}

/// A player as characters and numbers.
pub ghost struct PlayerView {
    pub username: Seq<char>,
    pub password: Seq<char>,
    pub name: Seq<char>,
    pub map: Seq<char>,
    pub sprite: u32,
    pub in_map_editor: bool,
}

impl View for PlayerEntry {
    type V = PlayerView;

    open spec fn view(&self) -> PlayerView {
        PlayerView {
            username: self.username@,
            password: self.password@,
            name: self.name@,
            map: self.map@,
            sprite: self.sprite,
            in_map_editor: self.in_map_editor,
        }
    }
}

/// The player `v` on map `map`.
pub open spec fn with_map(v: PlayerView, map: Seq<char>) -> PlayerView {
    PlayerView { map: map, ..v }
}

/// The player `v` with sprite `sprite`.
pub open spec fn with_sprite(v: PlayerView, sprite: u32) -> PlayerView {
    PlayerView { sprite: sprite, ..v }
}

/// The player `v` with the map editor open or closed.
pub open spec fn with_editor(v: PlayerView, open: bool) -> PlayerView {
    PlayerView { in_map_editor: open, ..v }
}

/// A copy of a player entry.
pub fn copy_entry(e: &PlayerEntry) -> (r: PlayerEntry)
    ensures
        r@ == e@,
{
    PlayerEntry {
        username: e.username.clone(),
        password: e.password.clone(),
        name: e.name.clone(),
        map: e.map.clone(),
        sprite: e.sprite,
        in_map_editor: e.in_map_editor,
    }
}

/// The maps reached by walking off each edge of a map, by map id.
#[derive(Clone, Debug)]
pub struct EdgeWarps {
    pub north: Option<String>,
    pub east: Option<String>,
    pub south: Option<String>,
    pub west: Option<String>,
}

/// The characters of an optional map id.
pub open spec fn id_view(id: Option<String>) -> Option<Seq<char>> {
    match id {
        Some(s) => Some(s@),
        None => None,
    }
}

impl EdgeWarps {
    /// The map id reached by walking off the edge in direction `d`.
    pub open spec fn spec_toward(self, d: Direction) -> Option<Seq<char>> {
        match d {
            Direction::North => id_view(self.north),
            Direction::East => id_view(self.east),
            Direction::South => id_view(self.south),
            Direction::West => id_view(self.west),
        }
    }

    /// The map reached by walking off the edge in direction `d`, if any.
    pub fn toward(&self, d: Direction) -> (r: Option<String>)
        ensures
            id_view(r) == self.spec_toward(d),
            d == Direction::North ==> id_view(r) == id_view(self.north),
            d == Direction::East ==> id_view(r) == id_view(self.east),
            d == Direction::South ==> id_view(r) == id_view(self.south),
            d == Direction::West ==> id_view(r) == id_view(self.west),
    {
        let edge = match d {
            Direction::North => &self.north,
            Direction::East => &self.east,
            Direction::South => &self.south,
            Direction::West => &self.west,
        };
        match edge {
            Some(id) => Some(id.clone()),
            None => None,
        }
    }
}

/// The players of a list of entries, by client.
pub open spec fn roster_of(s: Seq<(ClientId, PlayerEntry)>) -> Map<ClientId, PlayerView> {
    Map::new(
        |c: ClientId| exists|i: int| 0 <= i < s.len() && (#[trigger] s[i]).0 == c,
        |c: ClientId| s[choose|i: int| 0 <= i < s.len() && (#[trigger] s[i]).0 == c].1@,
    )
}

/// No client appears twice in a list of entries.
pub open spec fn distinct_clients(s: Seq<(ClientId, PlayerEntry)>) -> bool {
    forall|i: int, j: int| 0 <= i < s.len() && 0 <= j < s.len() && i != j ==> (#[trigger] s[i]).0 != (#[trigger] s[j]).0
}

/// In a list without repeated clients, every entry is the roster's player
/// for its client.
pub proof fn lemma_roster_at(s: Seq<(ClientId, PlayerEntry)>, i: int)
    requires
        distinct_clients(s),
        0 <= i < s.len(),
    ensures
        roster_of(s).dom().contains(s[i].0),
        roster_of(s)[s[i].0] == s[i].1@,
{
    let c = s[i].0;
    assert(exists|k: int| 0 <= k < s.len() && (#[trigger] s[k]).0 == c);
    let k = choose|k: int| 0 <= k < s.len() && (#[trigger] s[k]).0 == c;
    assert(k == i);
}

/// Giving the client of entry `i` a new player changes the roster there
/// and nowhere else.
pub proof fn lemma_roster_update(s: Seq<(ClientId, PlayerEntry)>, i: int, e: PlayerEntry)
    requires
        distinct_clients(s),
        0 <= i < s.len(),
    ensures
        distinct_clients(s.update(i, (s[i].0, e))),
        roster_of(s.update(i, (s[i].0, e))) == roster_of(s).insert(s[i].0, e@),
{
    let t = s.update(i, (s[i].0, e));
    assert forall|a: int, b: int| 0 <= a < t.len() && 0 <= b < t.len() && a != b implies (#[trigger] t[a]).0 != (#[trigger] t[b]).0 by {
        assert(t[a].0 == s[a].0 && t[b].0 == s[b].0);
    }
    let m = roster_of(s).insert(s[i].0, e@);
    assert forall|c: ClientId| #[trigger] roster_of(t).dom().contains(c) <==> m.dom().contains(c) by {
        if roster_of(t).dom().contains(c) {
            let k = choose|k: int| 0 <= k < t.len() && (#[trigger] t[k]).0 == c;
            assert(s[k].0 == c);
        }
        if m.dom().contains(c) {
            if c == s[i].0 {
                assert(t[i].0 == c);
            } else {
                let k = choose|k: int| 0 <= k < s.len() && (#[trigger] s[k]).0 == c;
                assert(t[k].0 == c);
            }
        }
    }
    assert forall|c: ClientId| #[trigger] roster_of(t).dom().contains(c) implies roster_of(t)[c] == m[c] by {
        let k = choose|k: int| 0 <= k < t.len() && (#[trigger] t[k]).0 == c;
        lemma_roster_at(t, k);
        if k != i {
            lemma_roster_at(s, k);
        }
    }
    assert(roster_of(t) =~= m);
}

/// Taking out entry `i` takes its client out of the roster.
pub proof fn lemma_roster_remove(s: Seq<(ClientId, PlayerEntry)>, i: int)
    requires
        distinct_clients(s),
        0 <= i < s.len(),
    ensures
        distinct_clients(s.remove(i)),
        roster_of(s.remove(i)) == roster_of(s).remove(s[i].0),
{
    let t = s.remove(i);
    assert forall|a: int| 0 <= a < t.len() implies #[trigger] t[a] == s[if a < i { a } else { a + 1 }] by {}
    assert forall|a: int, b: int| 0 <= a < t.len() && 0 <= b < t.len() && a != b implies (#[trigger] t[a]).0 != (#[trigger] t[b]).0 by {
        let a2 = if a < i { a } else { a + 1 };
        let b2 = if b < i { b } else { b + 1 };
        assert(t[a] == s[a2] && t[b] == s[b2]);
    }
    let m = roster_of(s).remove(s[i].0);
    assert forall|c: ClientId| #[trigger] roster_of(t).dom().contains(c) <==> m.dom().contains(c) by {
        if roster_of(t).dom().contains(c) {
            let k = choose|k: int| 0 <= k < t.len() && (#[trigger] t[k]).0 == c;
            let k2 = if k < i { k } else { k + 1 };
            assert(t[k] == s[k2]);
            assert(s[k2].0 == c);
            assert(c != s[i].0);
        }
        if m.dom().contains(c) {
            let k = choose|k: int| 0 <= k < s.len() && (#[trigger] s[k]).0 == c;
            assert(k != i);
            let k2 = if k < i { k } else { k - 1 };
            assert(t[k2] == s[k]);
            assert(t[k2].0 == c);
        }
    }
    assert forall|c: ClientId| #[trigger] roster_of(t).dom().contains(c) implies roster_of(t)[c] == m[c] by {
        let k = choose|k: int| 0 <= k < t.len() && (#[trigger] t[k]).0 == c;
        let k2 = if k < i { k } else { k + 1 };
        assert(t[k] == s[k2]);
        lemma_roster_at(t, k);
        lemma_roster_at(s, k2);
    }
    assert(roster_of(t) =~= m);
}

/// Adding an entry for a client not in the roster adds that client.
pub proof fn lemma_roster_push(s: Seq<(ClientId, PlayerEntry)>, c: ClientId, e: PlayerEntry)
    requires
        distinct_clients(s),
        !roster_of(s).dom().contains(c),
    ensures
        distinct_clients(s.push((c, e))),
        roster_of(s.push((c, e))) == roster_of(s).insert(c, e@),
{
    let t = s.push((c, e));
    assert forall|a: int| 0 <= a < s.len() implies #[trigger] s[a].0 != c by {
        if s[a].0 == c {
            assert(roster_of(s).dom().contains(c));
        }
    }
    assert forall|a: int, b: int| 0 <= a < t.len() && 0 <= b < t.len() && a != b implies (#[trigger] t[a]).0 != (#[trigger] t[b]).0 by {
        if a < s.len() {
            assert(t[a] == s[a]);
        }
        if b < s.len() {
            assert(t[b] == s[b]);
        }
    }
    let m = roster_of(s).insert(c, e@);
    assert forall|x: ClientId| #[trigger] roster_of(t).dom().contains(x) <==> m.dom().contains(x) by {
        if roster_of(t).dom().contains(x) {
            let k = choose|k: int| 0 <= k < t.len() && (#[trigger] t[k]).0 == x;
            if k < s.len() {
                assert(t[k] == s[k]);
                assert(s[k].0 == x);
            }
        }
        if m.dom().contains(x) {
            if x == c {
                assert(t[s.len() as int].0 == x);
            } else {
                let k = choose|k: int| 0 <= k < s.len() && (#[trigger] s[k]).0 == x;
                assert(t[k] == s[k]);
                assert(t[k].0 == x);
            }
        }
    }
    assert forall|x: ClientId| #[trigger] roster_of(t).dom().contains(x) implies roster_of(t)[x] == m[x] by {
        let k = choose|k: int| 0 <= k < t.len() && (#[trigger] t[k]).0 == x;
        lemma_roster_at(t, k);
        if k < s.len() {
            assert(t[k] == s[k]);
            lemma_roster_at(s, k);
        }
    }
    assert(roster_of(t) =~= m);
}

/// The names of a list of maps.
pub open spec fn names_of(maps: Seq<String>) -> Seq<Seq<char>> {
    maps.map_values(|m: String| m@)
}

/// The players of `roster` on map `map`.
pub open spec fn players_on(roster: Map<ClientId, PlayerView>, map: Seq<char>) -> Set<ClientId> {
    Set::new(|c: ClientId| roster.dom().contains(c) && roster[c].map == map)
}

/// `target` lists exactly the clients of `clients`, each once.
pub open spec fn lists(target: MessageTarget, clients: Set<ClientId>) -> bool {
    &&& target matches MessageTarget::List(l)
    &&& l@.no_duplicates()
    &&& l@.to_set() == clients
}

/// The line that tells everybody a player left.
pub open spec fn goodbye_text(name: Seq<char>) -> Seq<char> {
    name + " has left the game."@
}

/// The line that tells everybody a player joined.
pub open spec fn greeting_text(name: Seq<char>) -> Seq<char> {
    name + " has joined the game."@
}

/// Taking one element out of a sequence without repetitions takes it out
/// of its set, and leaves no repetitions.
pub proof fn lemma_remove_from_set<A>(s: Seq<A>, j: int)
    requires
        s.no_duplicates(),
        0 <= j < s.len(),
    ensures
        s.remove(j).no_duplicates(),
        s.remove(j).to_set() == s.to_set().remove(s[j]),
{
    let t = s.remove(j);
    assert forall|a: int| 0 <= a < t.len() implies #[trigger] t[a] == s[if a < j { a } else { a + 1 }] by {}
    assert forall|a: int, b: int| 0 <= a < b < t.len() implies t[a] != t[b] by {
        let a2 = if a < j { a } else { a + 1 };
        let b2 = if b < j { b } else { b + 1 };
        assert(t[a] == s[a2] && t[b] == s[b2]);
    }
    assert forall|x: A| #[trigger] t.to_set().contains(x) <==> s.to_set().remove(s[j]).contains(x) by {
        if t.contains(x) {
            let k = choose|k: int| 0 <= k < t.len() && t[k] == x;
            let k2 = if k < j { k } else { k + 1 };
            assert(t[k] == s[k2]);
            assert(s.contains(x));
        }
        if s.contains(x) && x != s[j] {
            let k = choose|k: int| 0 <= k < s.len() && s[k] == x;
            let k2 = if k < j { k } else { k - 1 };
            assert(t[k2] == s[k]);
            assert(t.contains(x));
        }
    }
    assert(t.to_set() =~= s.to_set().remove(s[j]));
}

/// An entry of `s` before index `n` makes `c` a player of `map`, and `c`
/// is not `skip`.
pub open spec fn listed_before(s: Seq<(ClientId, PlayerEntry)>, map: Seq<char>, skip: Option<ClientId>, n: int, c: ClientId) -> bool {
    exists|k: int| 0 <= k < n && (#[trigger] s[k]).0 == c && s[k].1.map@ == map && skip != Some(c)
}

/// The players of `roster` on `map`, but `skip`.
pub open spec fn players_on_but(roster: Map<ClientId, PlayerView>, map: Seq<char>, skip: Option<ClientId>) -> Set<ClientId> {
    match skip {
        Some(x) => players_on(roster, map).remove(x),
        None => players_on(roster, map),
    }
}

/// What follows when a player leaves the game.
pub struct Departure {
    /// The player who left, to be saved.
    pub player: PlayerEntry,
    /// Those told to remove the player: who is left on its map.
    pub remove_to: MessageTarget,
    /// The goodbye line, on the server channel.
    pub goodbye: String,
    /// Those who hear the goodbye.
    pub goodbye_to: MessageTarget,
}

/// What a warp brings about, beyond the player's new map.
pub struct WarpPlan {
    /// Whether the player changes maps; its first warp always does.
    pub changed: bool,
    /// Those told to remove the player from the map it left.
    pub left_notify: MessageTarget,
    /// The players on the destination afterwards, the warped one among
    /// them: they hear of the player, and the player of each of them.
    pub on_map: MessageTarget,
}

/// `plan` and the roster `after` are what warping `client` to `map` makes
/// of the roster `before`; `initial` marks the first warp, on joining.
pub open spec fn warped(
    before: Map<ClientId, PlayerView>,
    after: Map<ClientId, PlayerView>,
    client: ClientId,
    map: Seq<char>,
    initial: bool,
    plan: WarpPlan,
) -> bool {
    &&& after == before.insert(client, with_map(before[client], map))
    &&& plan.changed == (initial || before[client].map != map)
    &&& if plan.changed && !initial {
        lists(plan.left_notify, players_on(before, before[client].map).remove(client))
    } else {
        plan.left_notify == MessageTarget::Nobody
    }
    &&& lists(plan.on_map, players_on(after, map))
}

/// The line that greets a player who joins, for that player alone.
pub open spec fn welcome_text() -> Seq<char> {
    "Welcome to Game\u{2122}!"@
}

/// What follows when a player joins the game.
pub struct JoinPlan {
    /// The player's map did not exist, so it was put on the start map, at
    /// the configured starting position.
    pub moved_to_start: bool,
    /// The player as it entered the game.
    pub player: PlayerEntry,
    /// Its first warp, onto its map.
    pub warp: WarpPlan,
    /// The welcome line, on the server channel, for the player alone.
    pub welcome: String,
    /// The line announcing the player, on the server channel.
    pub greeting: String,
    /// Those who hear the announcement.
    pub greeting_to: MessageTarget,
}

/// The player `v` as it enters a game with the maps `maps`: on its map if
/// that exists, else on the start map.
pub open spec fn placed(v: PlayerView, maps: Set<Seq<char>>) -> PlayerView {
    if maps.contains(v.map) {
        v
    } else {
        with_map(v, start_map())
    }
}

/// The answer to `/warp` without a map id.
pub open spec fn warp_usage() -> Seq<char> {
    "Usage: /warp <map id>"@
}

/// The reason given when `/sprite` names nobody in the game.
pub open spec fn player_offline() -> Seq<char> {
    "Could not find the player, are they online?"@
}

/// The answer to a `/sprite` that failed for `reason`.
pub open spec fn sprite_error(reason: Seq<char>) -> Seq<char> {
    "Error: "@ + reason + "\nUsage: /sprite <player name> <sprite #>"@
}

/// A line that the player `name` says.
pub open spec fn said(name: Seq<char>, message: Seq<char>) -> Seq<char> {
    name + ": "@ + message
}

/// What a chat line brings about.
pub enum ChatOutcome {
    /// Nothing is sent.
    Ignored,
    /// A line on a channel, and who hears it.
    Chat { channel: ChatChannel, text: String, to: MessageTarget },
    /// `/warp` moved the sender to `map`, which had to be created first
    /// when `created` is set.
    Warped { map: String, created: bool, plan: WarpPlan },
    /// `/sprite` gave the player of `client` a new sprite: the player as it
    /// is now, to be saved, and who is told.
    SpriteChanged { client: ClientId, player: PlayerEntry, to: MessageTarget },
}

/// `r` is the line `text` on the error channel, for the sender `client`
/// alone.
pub open spec fn answer(r: ChatOutcome, client: ClientId, text: Seq<char>) -> bool {
    r matches ChatOutcome::Chat { channel, text: t, to }
        && channel == ChatChannel::Error && t@ == text && to == MessageTarget::Only(client)
}

/// The connected clients, the players among them, and the maps that exist.
pub struct GameServer {
    peers: Vec<ClientId>,
    players: Vec<(ClientId, PlayerEntry)>,
    maps: Vec<String>,
}

impl GameServer {
    /// The connected clients.
    pub closed spec fn peers(self) -> Set<ClientId> {
        self.peers@.to_set()
    }

    /// The players in the game, by client.
    pub closed spec fn roster(self) -> Map<ClientId, PlayerView> {
        roster_of(self.players@)
    }

    /// The maps that exist, in the order the server keeps them.
    pub closed spec fn map_names(self) -> Seq<Seq<char>> {
        names_of(self.maps@)
    }

    /// The maps that exist.
    pub closed spec fn maps(self) -> Set<Seq<char>> {
        self.map_names().to_set()
    }

    /// Nobody is connected or listed twice, every player is connected and on
    /// a map that exists, and the start map exists.
    pub closed spec fn wf(self) -> bool {
        &&& self.peers@.no_duplicates()
        &&& distinct_clients(self.players@)
        &&& forall|i: int| 0 <= i < self.players@.len() ==> self.peers@.contains((#[trigger] self.players@[i]).0)
        &&& forall|i: int| 0 <= i < self.players@.len() ==> self.maps().contains((#[trigger] self.players@[i]).1.map@)
        &&& self.map_names().no_duplicates()
        &&& self.maps().contains(start_map())
    }

    /// Every player is connected and stands on a map that exists.
    pub proof fn law_players_placed(self)
        requires
            self.wf(),
        ensures
            forall|c: ClientId| #[trigger] self.roster().dom().contains(c) ==> self.peers().contains(c) && self.maps().contains(self.roster()[c].map),
            self.maps().contains(start_map()),
    {
        assert forall|c: ClientId| #[trigger] self.roster().dom().contains(c) implies self.peers().contains(c) && self.maps().contains(self.roster()[c].map) by {
            let i = choose|i: int| 0 <= i < self.players@.len() && (#[trigger] self.players@[i]).0 == c;
            lemma_roster_at(self.players@, i);
            assert(self.peers@.contains(self.players@[i].0));
        }
    }

    /// Index of the player entry of `client`, if it plays.
    fn find_player(&self, client: ClientId) -> (r: Option<usize>)
        requires
            self.wf(),
        ensures
            match r {
                Some(i) => i < self.players@.len() && self.players@[i as int].0 == client && self.roster().dom().contains(client)
                    && self.roster()[client] == self.players@[i as int].1@,
                None => !self.roster().dom().contains(client),
            },
    {
        let mut i: usize = 0;
        while i < self.players.len()
            invariant
                self.wf(),
                i <= self.players@.len(),
                forall|k: int| 0 <= k < i ==> (#[trigger] self.players@[k]).0 != client,
            decreases self.players@.len() - i,
        {
            if self.players[i].0 == client {
                proof { lemma_roster_at(self.players@, i as int); }
                return Some(i);
            }
            i = i + 1;
        }
        None
    }

    /// Whether `client` is in the game; messages from other clients are
    /// read as login requests.
    pub fn is_logged_in(&self, client: ClientId) -> (r: bool)
        requires
            self.wf(),
        ensures
            r == self.roster().dom().contains(client),
    {
        self.find_player(client).is_some()
    }

    /// The player of `client`, if it plays.
    pub fn player(&self, client: ClientId) -> (r: Option<PlayerEntry>)
        requires
            self.wf(),
        ensures
            match r {
                Some(e) => self.roster().dom().contains(client) && e@ == self.roster()[client],
                None => !self.roster().dom().contains(client),
            },
    {
        match self.find_player(client) {
            Some(i) => Some(copy_entry(&self.players[i].1)),
            None => None,
        }
    }

    /// The connected clients, each once.
    pub fn peer_list(&self) -> (r: Vec<ClientId>)
        requires
            self.wf(),
        ensures
            r@.no_duplicates(),
            r@.to_set() == self.peers(),
    {
        let mut r: Vec<ClientId> = Vec::new();
        let mut i: usize = 0;
        while i < self.peers.len()
            invariant
                i <= self.peers@.len(),
                r@ == self.peers@.take(i as int),
            decreases self.peers@.len() - i,
        {
            r.push(self.peers[i]);
            assert(self.peers@.take(i as int + 1) =~= self.peers@.take(i as int).push(self.peers@[i as int]));
            i = i + 1;
        }
        assert(self.peers@.take(self.peers@.len() as int) =~= self.peers@);
        r
    }

    /// Whether the map `map_id` exists.
    pub fn has_map(&self, map_id: &str) -> (r: bool)
        ensures
            r == self.maps().contains(map_id@),
    {
        let mut i: usize = 0;
        while i < self.maps.len()
            invariant
                i <= self.maps@.len(),
                forall|k: int| 0 <= k < i ==> (#[trigger] self.maps@[k])@ != map_id@,
            decreases self.maps@.len() - i,
        {
            if str_eq(self.maps[i].as_str(), map_id) {
                assert(self.map_names()[i as int] == map_id@);
                return true;
            }
            i = i + 1;
        }
        assert(!self.map_names().contains(map_id@)) by {
            if self.map_names().contains(map_id@) {
                let k = choose|k: int| 0 <= k < self.map_names().len() && #[trigger] self.map_names()[k] == map_id@;
                assert(self.maps@[k]@ == map_id@);
            }
        }
        false
    }

    /// The players on map `map`, but `skip`, each once.
    fn players_on_map(&self, map: &str, skip: Option<ClientId>) -> (r: Vec<ClientId>)
        requires
            self.wf(),
        ensures
            r@.no_duplicates(),
            r@.to_set() == players_on_but(self.roster(), map@, skip),
    {
        let ghost s = self.players@;
        let mut r: Vec<ClientId> = Vec::new();
        let mut i: usize = 0;
        while i < self.players.len()
            invariant
                self.wf(),
                s == self.players@,
                i <= s.len(),
                r@.no_duplicates(),
                forall|c: ClientId| #[trigger] r@.contains(c) <==> listed_before(s, map@, skip, i as int, c),
            decreases s.len() - i,
        {
            let c = self.players[i].0;
            let keep = match skip {
                Some(x) => x != c,
                None => true,
            };
            if keep && str_eq(self.players[i].1.map.as_str(), map) {
                assert(!r@.contains(c)) by {
                    if r@.contains(c) {
                        let k = choose|k: int| 0 <= k < i && (#[trigger] s[k]).0 == c && s[k].1.map@ == map@ && skip != Some(c);
                        assert(s[k].0 == s[i as int].0);
                    }
                }
                let ghost old_r = r@;
                r.push(c);
                assert forall|a: int, b: int| 0 <= a < b < r@.len() implies r@[a] != r@[b] by {
                    if b == old_r.len() {
                        assert(old_r.contains(old_r[a]));
                    }
                }
                assert forall|x: ClientId| #[trigger] r@.contains(x) <==> listed_before(s, map@, skip, i + 1, x) by {
                    if r@.contains(x) && x != c {
                        let k = choose|k: int| 0 <= k < r@.len() && r@[k] == x;
                        assert(old_r[k] == x);
                        assert(old_r.contains(x));
                    }
                    if listed_before(s, map@, skip, i + 1, x) && x != c {
                        let k = choose|k: int| 0 <= k < i + 1 && (#[trigger] s[k]).0 == x && s[k].1.map@ == map@ && skip != Some(x);
                        assert(listed_before(s, map@, skip, i as int, x));
                        assert(old_r.contains(x));
                        let j = choose|j: int| 0 <= j < old_r.len() && old_r[j] == x;
                        assert(r@[j] == x);
                    }
                    if x == c {
                        assert(r@[old_r.len() as int] == x);
                        assert(s[i as int].0 == x);
                    }
                }
            } else {
                assert forall|x: ClientId| #[trigger] r@.contains(x) <==> listed_before(s, map@, skip, i + 1, x) by {
                    if listed_before(s, map@, skip, i + 1, x) {
                        let k = choose|k: int| 0 <= k < i + 1 && (#[trigger] s[k]).0 == x && s[k].1.map@ == map@ && skip != Some(x);
                        assert(listed_before(s, map@, skip, i as int, x));
                    }
                }
            }
            i = i + 1;
        }
        let ghost want = players_on_but(self.roster(), map@, skip);
        assert forall|x: ClientId| #[trigger] r@.to_set().contains(x) <==> want.contains(x) by {
            if r@.contains(x) {
                let k = choose|k: int| 0 <= k < s.len() && (#[trigger] s[k]).0 == x && s[k].1.map@ == map@ && skip != Some(x);
                lemma_roster_at(s, k);
            }
            if want.contains(x) {
                let k = choose|k: int| 0 <= k < s.len() && (#[trigger] s[k]).0 == x;
                lemma_roster_at(s, k);
                assert(listed_before(s, map@, skip, s.len() as int, x));
            }
        }
        assert(r@.to_set() =~= want);
        r
    }

    /// Where `client` stands among the connected clients, if it does.
    fn peer_index(&self, client: ClientId) -> (r: Option<usize>)
        ensures
            match r {
                Some(j) => j < self.peers@.len() && self.peers@[j as int] == client,
                None => !self.peers@.contains(client),
            },
    {
        let mut i: usize = 0;
        while i < self.peers.len()
            invariant
                i <= self.peers@.len(),
                forall|k: int| 0 <= k < i ==> self.peers@[k] != client,
            decreases self.peers@.len() - i,
        {
            if self.peers[i] == client {
                return Some(i);
            }
            i = i + 1;
        }
        None
    }

    /// Those who hear what happens on map `map_id`: its players.
    pub fn send_to_map(&self, map_id: &str) -> (t: MessageTarget)
        requires
            self.wf(),
        ensures
            lists(t, players_on(self.roster(), map_id@)),
    {
        MessageTarget::List(self.players_on_map(map_id, None))
    }

    /// The players of map `map_id` but `exclude`.
    pub fn send_map_except(&self, map_id: &str, exclude: ClientId) -> (t: MessageTarget)
        requires
            self.wf(),
        ensures
            lists(t, players_on(self.roster(), map_id@).remove(exclude)),
    {
        MessageTarget::List(self.players_on_map(map_id, Some(exclude)))
    }

    /// A client connects. It is not in the game until it logs in.
    pub fn connect(&mut self, client: ClientId)
        requires
            old(self).wf(),
        ensures
            final(self).wf(),
            final(self).peers() == old(self).peers().insert(client),
            final(self).roster() == old(self).roster(),
            final(self).maps() == old(self).maps(),
    {
        if self.peer_index(client).is_some() {
            assert(self.peers().insert(client) =~= self.peers());
            return;
        }
        let ghost before = self.peers@;
        self.peers.push(client);
        proof { crate::names::lemma_push_to_set(before, client); }
        assert forall|a: int, b: int| 0 <= a < b < self.peers@.len() implies self.peers@[a] != self.peers@[b] by {
            if b == before.len() {
                assert(before[a] != client);
            }
        }
        assert forall|k: int| 0 <= k < self.players@.len() implies self.peers@.contains((#[trigger] self.players@[k]).0) by {
            assert(before.contains(self.players@[k].0));
            let j = choose|j: int| 0 <= j < before.len() && before[j] == self.players@[k].0;
            assert(self.peers@[j] == before[j]);
        }
    }

    /// A client goes away: it is neither connected nor in the game any more.
    /// If it played, the result says who is told, and with what.
    pub fn disconnect(&mut self, client: ClientId) -> (r: Option<Departure>)
        requires
            old(self).wf(),
        ensures
            final(self).wf(),
            final(self).peers() == old(self).peers().remove(client),
            final(self).roster() == old(self).roster().remove(client),
            final(self).maps() == old(self).maps(),
            match r {
                None => !old(self).roster().dom().contains(client),
                Some(d) => {
                    &&& old(self).roster().dom().contains(client)
                    &&& d.player@ == old(self).roster()[client]
                    &&& lists(d.remove_to, players_on(final(self).roster(), old(self).roster()[client].map))
                    &&& d.goodbye@ == goodbye_text(old(self).roster()[client].name)
                    &&& d.goodbye_to == MessageTarget::Exclude(client)
                },
            },
    {
        let ghost old_roster = self.roster();
        let found = self.find_player(client);
        let mut left: Option<PlayerEntry> = None;
        match found {
            Some(i) => {
                proof { lemma_roster_remove(self.players@, i as int); }
                let ghost before = self.players@;
                let (_, e) = self.players.remove(i);
                assert(self.players@ == before.remove(i as int));
                assert forall|k: int| 0 <= k < self.players@.len() implies
                    self.peers@.contains((#[trigger] self.players@[k]).0) && self.maps().contains(self.players@[k].1.map@) by {
                    let k2 = if k < i { k } else { k + 1 };
                    assert(self.players@[k] == before[k2]);
                }
                left = Some(e);
            },
            None => {
                assert(old_roster.remove(client) =~= old_roster);
            },
        }
        // The client leaves the connected clients.
        match self.peer_index(client) {
            Some(j) => {
                let ghost before = self.peers@;
                proof { lemma_remove_from_set(before, j as int); }
                self.peers.remove(j);
                assert forall|k: int| 0 <= k < self.players@.len() implies self.peers@.contains((#[trigger] self.players@[k]).0) by {
                    let c = self.players@[k].0;
                    lemma_roster_at(self.players@, k);
                    assert(before.contains(c));
                    assert(before.to_set().contains(c));
                    assert(self.peers@.to_set().contains(c));
                }
            },
            None => {
                assert(self.peers().remove(client) =~= self.peers());
            },
        }
        match left {
            Some(e) => {
                let remove_to = self.send_to_map(e.map.as_str());
                let goodbye = concat_str(e.name.as_str(), " has left the game.");
                Some(Departure { player: e, remove_to, goodbye, goodbye_to: MessageTarget::Exclude(client) })
            },
            None => None,
        }
    }

    /// Moves the player of entry `i` to `map_id`.
    fn warp_at(&mut self, i: usize, map_id: &str, initial: bool) -> (plan: WarpPlan)
        requires
            old(self).wf(),
            i < old(self).players@.len(),
            initial || old(self).players@[i as int].1.map@ != map_id@ ==> old(self).maps().contains(map_id@),
        ensures
            final(self).wf(),
            final(self).peers() == old(self).peers(),
            final(self).maps() == old(self).maps(),
            final(self).players@.len() == old(self).players@.len(),
            final(self).players@[i as int].0 == old(self).players@[i as int].0,
            old(self).roster().dom().contains(old(self).players@[i as int].0),
            warped(old(self).roster(), final(self).roster(), old(self).players@[i as int].0, map_id@, initial, plan),
    {
        let ghost before = self.roster();
        let client = self.players[i].0;
        proof { lemma_roster_at(self.players@, i as int); }
        let mut e = copy_entry(&self.players[i].1);
        let changed = initial || !str_eq(e.map.as_str(), map_id);
        let left_notify = if changed && !initial {
            self.send_map_except(e.map.as_str(), client)
        } else {
            MessageTarget::Nobody
        };
        e.map = map_id.to_owned();
        proof { lemma_roster_update(self.players@, i as int, e); }
        let ghost old_players = self.players@;
        self.players.set(i, (client, e));
        assert forall|k: int| 0 <= k < self.players@.len() implies
            self.peers@.contains((#[trigger] self.players@[k]).0) && self.maps().contains(self.players@[k].1.map@) by {
            if k != i {
                assert(self.players@[k] == old_players[k]);
            }
        }
        let on_map = self.send_to_map(map_id);
        WarpPlan { changed, left_notify, on_map }
    }

    /// Warps the player of `client` to the map `map_id`: the map changes,
    /// or, when it is the player's own map, only its place on it (kept by
    /// the caller). A client that does not play is left alone.
    pub fn warp_player(&mut self, client: ClientId, map_id: &str, initial: bool) -> (r: Option<WarpPlan>)
        requires
            old(self).wf(),
            old(self).roster().dom().contains(client) && (initial || old(self).roster()[client].map != map_id@)
                ==> old(self).maps().contains(map_id@),
        ensures
            final(self).wf(),
            final(self).peers() == old(self).peers(),
            final(self).maps() == old(self).maps(),
            match r {
                None => !old(self).roster().dom().contains(client) && final(self).roster() == old(self).roster(),
                Some(plan) => old(self).roster().dom().contains(client)
                    && warped(old(self).roster(), final(self).roster(), client, map_id@, initial, plan),
            },
    {
        match self.find_player(client) {
            Some(i) => Some(self.warp_at(i, map_id, initial)),
            None => None,
        }
    }

    /// `client` enters the game as `entry`: on its map if that exists,
    /// else on the start map; then it makes its first warp.
    pub fn join_game(&mut self, client: ClientId, entry: PlayerEntry) -> (plan: JoinPlan)
        requires
            old(self).wf(),
            old(self).peers().contains(client),
        ensures
            joined(*old(self), *final(self), client, entry@, plan),
    {
        let ghost before = *self;
        let mut entry = entry;
        let moved_to_start = !self.has_map(entry.map.as_str());
        if moved_to_start {
            proof { reveal_strlit("start"); }
            entry.map = "start".to_owned();
        }
        let placed_entry = copy_entry(&entry);
        let i = match self.find_player(client) {
            Some(i) => {
                proof { lemma_roster_update(self.players@, i as int, entry); }
                let ghost old_players = self.players@;
                self.players.set(i, (client, entry));
                assert forall|k: int| 0 <= k < self.players@.len() implies
                    self.peers@.contains((#[trigger] self.players@[k]).0) && self.maps().contains(self.players@[k].1.map@) by {
                    if k != i {
                        assert(self.players@[k] == old_players[k]);
                    }
                }
                i
            },
            None => {
                proof { lemma_roster_push(self.players@, client, entry); }
                let ghost old_players = self.players@;
                self.players.push((client, entry));
                assert forall|k: int| 0 <= k < self.players@.len() implies
                    self.peers@.contains((#[trigger] self.players@[k]).0) && self.maps().contains(self.players@[k].1.map@) by {
                    if k < old_players.len() {
                        assert(self.players@[k] == old_players[k]);
                    }
                }
                self.players.len() - 1
            },
        };
        let ghost mid = self.roster();
        proof { lemma_roster_at(self.players@, i as int); }
        let warp = self.warp_at(i, placed_entry.map.as_str(), true);
        proof { reveal_strlit("Welcome to Game\u{2122}!"); }
        let welcome = "Welcome to Game\u{2122}!".to_owned();
        let greeting = concat_str(placed_entry.name.as_str(), " has joined the game.");
        JoinPlan {
            moved_to_start,
            player: placed_entry,
            warp,
            welcome,
            greeting,
            greeting_to: MessageTarget::Exclude(client),
        }
    }

    /// A login with the player stored under the given username, if there
    /// is one: it joins the game when the password hashes to the stored
    /// hash; otherwise nothing changes and the login is refused.
    pub fn login(&mut self, client: ClientId, stored: Option<PlayerEntry>, password: &str) -> (r: Option<JoinPlan>)
        requires
            old(self).wf(),
            old(self).peers().contains(client),
        ensures
            final(self).wf(),
            match stored {
                Some(p) => if matches_stored(p.password@, password.spec_bytes()) {
                    r matches Some(plan) && joined(*old(self), *final(self), client, p@, plan)
                } else {
                    r is None && *final(self) == *old(self)
                },
                None => r is None && *final(self) == *old(self),
            },
    {
        match stored {
            Some(p) => {
                if password_matches(p.password.as_str(), password) {
                    Some(self.join_game(client, p))
                } else {
                    None
                }
            },
            None => None,
        }
    }

    /// A new account: the refusals the client is sent (a taken username,
    /// a taken character name, in that order; neither stops the account
    /// from being made), the name recorded as taken, and the new player,
    /// on the start map, joining the game.
    pub fn create_account(
        &mut self,
        client: ClientId,
        username: &str,
        password: &str,
        name: &str,
        username_taken: bool,
        names: &mut NameCache,
    ) -> (r: (Vec<FailJoinReason>, JoinPlan))
        requires
            old(self).wf(),
            old(self).peers().contains(client),
            old(names).wf(),
        ensures
            final(names).wf(),
            final(names).view() == old(names).view().insert(name@),
            r.0@ == refusals(username_taken, old(names).view().contains(name@)),
            joined(*old(self), *final(self), client, new_player(username@, password.spec_bytes(), name@), r.1),
    {
        let mut refused: Vec<FailJoinReason> = Vec::new();
        if username_taken {
            refused.push(FailJoinReason::UsernameTaken);
        }
        if names.contains(name) {
            refused.push(FailJoinReason::CharacterNameTaken);
        }
        names.insert(name.to_owned());
        proof { reveal_strlit("start"); }
        let player = PlayerEntry {
            username: username.to_owned(),
            password: hash_password(password),
            name: name.to_owned(),
            map: "start".to_owned(),
            sprite: 0,
            in_map_editor: false,
        };
        assert(refused@ =~= refusals(username_taken, old(names).view().contains(name@)));
        let plan = self.join_game(client, player);
        (refused, plan)
    }

    /// Index of a player named `who`, if one is in the game.
    fn find_by_name(&self, who: &str) -> (r: Option<usize>)
        requires
            self.wf(),
        ensures
            match r {
                Some(i) => i < self.players@.len() && self.players@[i as int].1.name@ == who@,
                None => forall|c: ClientId| #[trigger] self.roster().dom().contains(c) ==> self.roster()[c].name != who@,
            },
    {
        let mut i: usize = 0;
        while i < self.players.len()
            invariant
                self.wf(),
                i <= self.players@.len(),
                forall|k: int| 0 <= k < i ==> (#[trigger] self.players@[k]).1.name@ != who@,
            decreases self.players@.len() - i,
        {
            if str_eq(self.players[i].1.name.as_str(), who) {
                return Some(i);
            }
            i = i + 1;
        }
        assert forall|c: ClientId| #[trigger] self.roster().dom().contains(c) implies self.roster()[c].name != who@ by {
            let k = choose|k: int| 0 <= k < self.players@.len() && (#[trigger] self.players@[k]).0 == c;
            lemma_roster_at(self.players@, k);
        }
        None
    }

    /// Gives the player of entry `i` the sprite `sprite`.
    fn set_sprite_at(&mut self, i: usize, sprite: u32) -> (r: PlayerEntry)
        requires
            old(self).wf(),
            i < old(self).players@.len(),
        ensures
            final(self).wf(),
            final(self).peers() == old(self).peers(),
            final(self).maps() == old(self).maps(),
            old(self).roster().dom().contains(old(self).players@[i as int].0),
            r@ == with_sprite(old(self).roster()[old(self).players@[i as int].0], sprite),
            final(self).roster() == old(self).roster().insert(old(self).players@[i as int].0, r@),
    {
        let client = self.players[i].0;
        proof { lemma_roster_at(self.players@, i as int); }
        let mut e = copy_entry(&self.players[i].1);
        e.sprite = sprite;
        let r = copy_entry(&e);
        proof { lemma_roster_update(self.players@, i as int, e); }
        let ghost old_players = self.players@;
        self.players.set(i, (client, e));
        assert forall|k: int| 0 <= k < self.players@.len() implies
            self.peers@.contains((#[trigger] self.players@[k]).0) && self.maps().contains(self.players@[k].1.map@) by {
            if k != i {
                assert(self.players@[k] == old_players[k]);
            }
        }
        r
    }

    /// A chat line from the player of `client` on `channel`. `/warp` and
    /// `/sprite` are commands; other lines go to the channel's hearers:
    /// everybody for the server and global channels, the speaker's map for
    /// `Say`; the echo and error channels are not for players to talk on.
    pub fn process_chat(&mut self, client: ClientId, channel: ChatChannel, message: &str) -> (r: ChatOutcome)
        requires
            old(self).wf(),
            old(self).roster().dom().contains(client),
        ensures
            final(self).wf(),
            final(self).peers() == old(self).peers(),
            match spec_parse_command(message@) {
                CommandView::Warp(m) => {
                    &&& final(self).maps() == old(self).maps().insert(m)
                    &&& r matches ChatOutcome::Warped { map, created, plan }
                    &&& map@ == m
                    &&& created == !old(self).maps().contains(m)
                    &&& warped(old(self).roster(), final(self).roster(), client, m, false, plan)
                },
                CommandView::WarpUsage => *final(self) == *old(self) && answer(r, client, warp_usage()),
                CommandView::Sprite(who, n) => if exists|c: ClientId| #[trigger] old(self).roster().dom().contains(c) && old(self).roster()[c].name == who {
                    &&& r matches ChatOutcome::SpriteChanged { client: t, player, to }
                    &&& old(self).roster().dom().contains(t)
                    &&& old(self).roster()[t].name == who
                    &&& player@ == with_sprite(old(self).roster()[t], n)
                    &&& final(self).roster() == old(self).roster().insert(t, player@)
                    &&& final(self).maps() == old(self).maps()
                    &&& lists(to, players_on(final(self).roster(), player@.map))
                } else {
                    *final(self) == *old(self) && answer(r, client, sprite_error(player_offline()))
                },
                CommandView::SpriteError(reason) => *final(self) == *old(self) && answer(r, client, sprite_error(reason)),
                CommandView::NotACommand => {
                    &&& *final(self) == *old(self)
                    &&& match channel {
                        ChatChannel::Echo | ChatChannel::Error => r is Ignored,
                        ChatChannel::Server => r matches ChatOutcome::Chat { channel: ch, text, to }
                            && ch == ChatChannel::Server && text@ == message@ && to == MessageTarget::Everybody,
                        ChatChannel::Say => r matches ChatOutcome::Chat { channel: ch, text, to }
                            && ch == ChatChannel::Say && text@ == said(old(self).roster()[client].name, message@)
                            && lists(to, players_on(old(self).roster(), old(self).roster()[client].map)),
                        ChatChannel::Global => r matches ChatOutcome::Chat { channel: ch, text, to }
                            && ch == ChatChannel::Global && text@ == said(old(self).roster()[client].name, message@)
                            && to == MessageTarget::Everybody,
                    }
                },
            },
    {
        proof {
            reveal_strlit("Usage: /warp <map id>");
            reveal_strlit("Could not find the player, are they online?");
            reveal_strlit("Error: ");
            reveal_strlit("\nUsage: /sprite <player name> <sprite #>");
            reveal_strlit(": ");
        }
        match parse_command(message) {
            ChatCommand::Warp(m) => {
                let created = self.validate_map(m.as_str());
                let i = self.find_player(client).unwrap();
                let plan = self.warp_at(i, m.as_str(), false);
                ChatOutcome::Warped { map: m, created, plan }
            },
            ChatCommand::WarpUsage => ChatOutcome::Chat {
                channel: ChatChannel::Error,
                text: "Usage: /warp <map id>".to_owned(),
                to: MessageTarget::Only(client),
            },
            ChatCommand::Sprite { who, sprite } => {
                match self.find_by_name(who.as_str()) {
                    Some(i) => {
                        let t = self.players[i].0;
                        proof { lemma_roster_at(self.players@, i as int); }
                        let player = self.set_sprite_at(i, sprite);
                        let to = self.send_to_map(player.map.as_str());
                        ChatOutcome::SpriteChanged { client: t, player, to }
                    },
                    None => ChatOutcome::Chat {
                        channel: ChatChannel::Error,
                        text: sprite_error_line("Could not find the player, are they online?"),
                        to: MessageTarget::Only(client),
                    },
                }
            },
            ChatCommand::SpriteError(reason) => ChatOutcome::Chat {
                channel: ChatChannel::Error,
                text: sprite_error_line(reason.as_str()),
                to: MessageTarget::Only(client),
            },
            ChatCommand::NotACommand => {
                let i = self.find_player(client).unwrap();
                match channel {
                    ChatChannel::Echo | ChatChannel::Error => ChatOutcome::Ignored,
                    ChatChannel::Server => ChatOutcome::Chat {
                        channel: ChatChannel::Server,
                        text: message.to_owned(),
                        to: MessageTarget::Everybody,
                    },
                    ChatChannel::Say => {
                        let text = concat_str(concat_str(self.players[i].1.name.as_str(), ": ").as_str(), message);
                        let to = self.send_to_map(self.players[i].1.map.as_str());
                        ChatOutcome::Chat { channel: ChatChannel::Say, text, to }
                    },
                    ChatChannel::Global => {
                        let text = concat_str(concat_str(self.players[i].1.name.as_str(), ": ").as_str(), message);
                        ChatOutcome::Chat { channel: ChatChannel::Global, text, to: MessageTarget::Everybody }
                    },
                }
            },
        }
    }

    /// The player of `client` opens or closes the map editor; the players
    /// on its map are told.
    pub fn set_map_editor(&mut self, client: ClientId, open: bool) -> (r: MessageTarget)
        requires
            old(self).wf(),
            old(self).roster().dom().contains(client),
        ensures
            final(self).wf(),
            final(self).peers() == old(self).peers(),
            final(self).maps() == old(self).maps(),
            final(self).roster() == old(self).roster().insert(client, with_editor(old(self).roster()[client], open)),
            lists(r, players_on(final(self).roster(), old(self).roster()[client].map)),
    {
        let i = self.find_player(client).unwrap();
        let mut e = copy_entry(&self.players[i].1);
        e.in_map_editor = open;
        let map = e.map.clone();
        proof { lemma_roster_update(self.players@, i as int, e); }
        let ghost old_players = self.players@;
        self.players.set(i, (client, e));
        assert forall|k: int| 0 <= k < self.players@.len() implies
            self.peers@.contains((#[trigger] self.players@[k]).0) && self.maps().contains(self.players@[k].1.map@) by {
            if k != i {
                assert(self.players@[k] == old_players[k]);
            }
        }
        self.send_to_map(map.as_str())
    }

    /// Makes sure the map `map_id` exists; says whether it had to be
    /// created, in which case the caller makes and saves it.
    pub fn validate_map(&mut self, map_id: &str) -> (created: bool)
        requires
            old(self).wf(),
        ensures
            final(self).wf(),
            final(self).maps() == old(self).maps().insert(map_id@),
            created == !old(self).maps().contains(map_id@),
            final(self).peers() == old(self).peers(),
            final(self).roster() == old(self).roster(),
    {
        self.insert_map(map_id)
    }

    /// Adds the map `map_id` unless it exists; says whether it was added.
    fn insert_map(&mut self, map_id: &str) -> (r: bool)
        requires
            old(self).map_names().no_duplicates(),
        ensures
            final(self).map_names().no_duplicates(),
            final(self).maps() == old(self).maps().insert(map_id@),
            r == !old(self).maps().contains(map_id@),
            final(self).peers == old(self).peers,
            final(self).players == old(self).players,
    {
        if self.has_map(map_id) {
            assert(self.maps().insert(map_id@) =~= self.maps());
            false
        } else {
            let ghost before = self.map_names();
            self.maps.push(map_id.to_owned());
            assert(self.map_names() =~= before.push(map_id@));
            proof { crate::names::lemma_push_to_set(before, map_id@); }
            assert forall|a: int, b: int| 0 <= a < b < self.map_names().len() implies self.map_names()[a] != self.map_names()[b] by {
                if b == before.len() {
                    assert(before.contains(before[a]));
                }
            }
            true
        }
    }

    /// A server with no clients, the maps `existing`, and the start map,
    /// which is created when it is not among them; the flag tells whether
    /// it was.
    pub fn new(existing: &Vec<String>) -> (r: (GameServer, bool))
        ensures
            r.0.wf(),
            r.0.peers() == Set::<ClientId>::empty(),
            r.0.roster() == Map::<ClientId, PlayerView>::empty(),
            r.0.maps() == names_of(existing@).to_set().insert(start_map()),
            r.1 == !names_of(existing@).contains(start_map()),
    {
        let mut s = GameServer { peers: Vec::new(), players: Vec::new(), maps: Vec::new() };
        let mut i: usize = 0;
        while i < existing.len()
            invariant
                i <= existing@.len(),
                s.peers@.len() == 0,
                s.players@.len() == 0,
                s.map_names().no_duplicates(),
                s.maps() == names_of(existing@).take(i as int).to_set(),
            decreases existing@.len() - i,
        {
            s.insert_map(existing[i].as_str());
            assert(names_of(existing@).take(i as int + 1) =~= names_of(existing@).take(i as int).push(existing@[i as int]@));
            proof {
                crate::names::lemma_push_to_set(names_of(existing@).take(i as int), existing@[i as int]@);
            }
            i = i + 1;
        }
        assert(names_of(existing@).take(existing@.len() as int) =~= names_of(existing@));
        proof { reveal_strlit("start"); }
        let created = s.insert_map("start");
        assert(s.roster() =~= Map::<ClientId, PlayerView>::empty());
        assert(s.peers() =~= Set::<ClientId>::empty());
        (s, created)
    }
}

/// `after` and `plan` are what `client` joining as `v` makes of `before`.
pub open spec fn joined(before: GameServer, after: GameServer, client: ClientId, v: PlayerView, plan: JoinPlan) -> bool {
    &&& after.wf()
    &&& after.peers() == before.peers()
    &&& after.maps() == before.maps()
    &&& plan.moved_to_start == !before.maps().contains(v.map)
    &&& plan.player@ == placed(v, before.maps())
    &&& warped(before.roster().insert(client, plan.player@), after.roster(), client, plan.player@.map, true, plan.warp)
    &&& plan.welcome@ == welcome_text()
    &&& plan.greeting@ == greeting_text(v.name)
    &&& plan.greeting_to == MessageTarget::Exclude(client)
}

/// The refusals a new account brings: a taken username, then a taken
/// character name.
pub open spec fn refusals(username_taken: bool, name_taken: bool) -> Seq<FailJoinReason> {
    (if username_taken { seq![FailJoinReason::UsernameTaken] } else { seq![] })
        + (if name_taken { seq![FailJoinReason::CharacterNameTaken] } else { seq![] })
}

/// A new player: its password stored as its hash, on the start map, with
/// the first sprite and the map editor closed.
pub open spec fn new_player(username: Seq<char>, password: Seq<u8>, name: Seq<char>) -> PlayerView {
    PlayerView {
        username: username,
        password: password_hash(password),
        name: name,
        map: start_map(),
        sprite: 0,
        in_map_editor: false,
    }
}

/// The answer to a `/sprite` that failed for `reason`.
fn sprite_error_line(reason: &str) -> (r: String)
    ensures
        r@ == sprite_error(reason@),
{
    let head = concat_str("Error: ", reason);
    concat_str(head.as_str(), "\nUsage: /sprite <player name> <sprite #>")
}

/// A warped player stands on its destination, is among its players, and
/// nobody else is moved.
pub proof fn law_warp_lands(
    before: Map<ClientId, PlayerView>,
    after: Map<ClientId, PlayerView>,
    client: ClientId,
    map: Seq<char>,
    initial: bool,
    plan: WarpPlan,
)
    requires
        before.dom().contains(client),
        warped(before, after, client, map, initial, plan),
    ensures
        after.dom().contains(client),
        after[client].map == map,
        plan.on_map matches MessageTarget::List(l) && l@.contains(client),
        !crate::networking::admits(plan.left_notify, client),
        forall|c: ClientId| c != client ==> (#[trigger] after.dom().contains(c) == before.dom().contains(c)) && after[c] == before[c],
{
    assert(players_on(after, map).contains(client));
    if let MessageTarget::List(l) = plan.on_map {
        assert(l@.to_set().contains(client));
    }
    if plan.changed && !initial {
        if let MessageTarget::List(l) = plan.left_notify {
            assert(!l@.to_set().contains(client));
        }
    }
}

/// A player who joins is in the game, on a map that exists, among those on
/// its map, and not among those told of its arrival.
pub proof fn law_join_enters(before: GameServer, after: GameServer, client: ClientId, v: PlayerView, plan: JoinPlan)
    requires
        before.wf(),
        joined(before, after, client, v, plan),
    ensures
        after.roster().dom().contains(client),
        after.roster()[client] == plan.player@,
        after.maps().contains(after.roster()[client].map),
        !crate::networking::admits(plan.greeting_to, client),
        plan.warp.on_map matches MessageTarget::List(l) && l@.contains(client),
{
    let mid = before.roster().insert(client, plan.player@);
    law_warp_lands(mid, after.roster(), client, plan.player@.map, true, plan.warp);
    after.law_players_placed();
}

/// A player who leaves hears neither its own goodbye nor that it is gone.
pub proof fn law_leaver_hears_nothing(before: GameServer, after: GameServer, client: ClientId, d: Departure)
    requires
        before.roster().dom().contains(client),
        after.roster() == before.roster().remove(client),
        lists(d.remove_to, players_on(after.roster(), before.roster()[client].map)),
        d.goodbye_to == MessageTarget::Exclude(client),
    ensures
        !crate::networking::admits(d.remove_to, client),
        !crate::networking::admits(d.goodbye_to, client),
{
    if let MessageTarget::List(l) = d.remove_to {
        assert(!players_on(after.roster(), before.roster()[client].map).contains(client));
        assert(!l@.to_set().contains(client));
    }
}

/// A client that connects and goes away without playing leaves the server
/// as it found it.
pub proof fn law_connect_then_disconnect(s0: GameServer, s1: GameServer, s2: GameServer, client: ClientId)
    requires
        s0.wf(),
        !s0.peers().contains(client),
        s1.peers() == s0.peers().insert(client),
        s1.roster() == s0.roster(),
        s1.maps() == s0.maps(),
        s2.peers() == s1.peers().remove(client),
        s2.roster() == s1.roster().remove(client),
        s2.maps() == s1.maps(),
    ensures
        s2.peers() == s0.peers(),
        s2.roster() == s0.roster(),
        s2.maps() == s0.maps(),
{
    s0.law_players_placed();
    assert(!s0.roster().dom().contains(client));
    assert(s2.peers() =~= s0.peers());
    assert(s2.roster() =~= s0.roster());
}

/// Once a map has been made sure of, making sure of it again creates
/// nothing and changes no map.
pub proof fn law_validate_idempotent(before: GameServer, after: GameServer, map: Seq<char>)
    requires
        after.maps() == before.maps().insert(map),
    ensures
        after.maps().contains(map),
        after.maps().insert(map) == after.maps(),
{
    assert(after.maps().insert(map) =~= after.maps());
}

/// The refusals a new account brings answer each check on its own: the
/// client hears that its username is taken exactly when it is, and that its
/// character name is taken exactly when the name was already recorded,
/// whatever the other check found; a taken username is told first.
pub proof fn law_refusals_answer_each_check(username_taken: bool, name_taken: bool)
    ensures
        refusals(username_taken, name_taken).contains(FailJoinReason::UsernameTaken) == username_taken,
        refusals(username_taken, name_taken).contains(FailJoinReason::CharacterNameTaken) == name_taken,
        refusals(username_taken, name_taken).len() == (if username_taken { 1int } else { 0int }) + (if name_taken {
            1int
        } else {
            0int
        }),
        username_taken ==> refusals(username_taken, name_taken)[0] == FailJoinReason::UsernameTaken,
        !refusals(username_taken, name_taken).contains(FailJoinReason::LoginIncorrect),
{
    let r = refusals(username_taken, name_taken);
    let u: Seq<FailJoinReason> = if username_taken { seq![FailJoinReason::UsernameTaken] } else { seq![] };
    let c: Seq<FailJoinReason> = if name_taken { seq![FailJoinReason::CharacterNameTaken] } else { seq![] };
    assert(r == u + c);
    if username_taken {
        assert(r[0] == FailJoinReason::UsernameTaken);
    }
    if name_taken {
        assert(r[r.len() - 1] == FailJoinReason::CharacterNameTaken);
    }
    assert forall|x: FailJoinReason| #[trigger] r.contains(x) implies
        (x == FailJoinReason::UsernameTaken && username_taken) || (x == FailJoinReason::CharacterNameTaken && name_taken) by {
        let k = choose|k: int| 0 <= k < r.len() && r[k] == x;
        if k < u.len() {
            assert(r[k] == u[k]);
        } else {
            assert(r[k] == c[k - u.len()]);
        }
    }
}

/// A new player enters the game as a beginner: under the username and
/// character name it chose, with its password kept only as its hash, on the
/// start map, with the first sprite, and with the map editor closed.
pub proof fn law_new_player_starts_fresh(username: Seq<char>, password: Seq<u8>, name: Seq<char>)
    ensures
        new_player(username, password, name).username == username,
        new_player(username, password, name).name == name,
        new_player(username, password, name).password == base64(sha256(password)),
        new_player(username, password, name).map == "start"@,
        new_player(username, password, name).sprite == 0,
        !new_player(username, password, name).in_map_editor,
{
}

/// Walking off an edge leads to the map stored for that very edge: north to
/// the north map, east to the east map, south to the south map, west to the
/// west map; an edge with no map stored leads nowhere.
pub proof fn law_edge_warp_follows_the_edge(w: EdgeWarps)
    ensures
        w.spec_toward(Direction::North) == (match w.north {
            Some(id) => Some(id@),
            None => None::<Seq<char>>,
        }),
        w.spec_toward(Direction::East) == (match w.east {
            Some(id) => Some(id@),
            None => None::<Seq<char>>,
        }),
        w.spec_toward(Direction::South) == (match w.south {
            Some(id) => Some(id@),
            None => None::<Seq<char>>,
        }),
        w.spec_toward(Direction::West) == (match w.west {
            Some(id) => Some(id@),
            None => None::<Seq<char>>,
        }),
{
}

} // verus!
