//! Where the client and the server keep their files inside the runtime
//! folder, which the running program finds and hands in.
use vstd::prelude::*;

use crate::text::concat_str;

verus! {

/// `folder` joined with `path` as `PathBuf::push` joins them: an absolute
/// `path` replaces the folder; any other is placed inside it, with a `/`
/// between them unless the folder is empty or already ends in one.
pub open spec fn joined(folder: Seq<char>, path: Seq<char>) -> Seq<char> {
    if path.len() > 0 && path[0] == '/' {
        path
    } else if folder.len() == 0 || folder.last() == '/' {
        folder + path
    } else {
        folder + seq!['/'] + path
    }
}

/// The location of the client file `path` in the runtime folder `runtime`.
pub open spec fn client_file(runtime: Seq<char>, path: Seq<char>) -> Seq<char> {
    joined(joined(runtime, "client"@), path)
}

/// The location of the server file `path` in the runtime folder `runtime`.
pub open spec fn server_file(runtime: Seq<char>, path: Seq<char>) -> Seq<char> {
    joined(joined(runtime, "server"@), path)
}

/// `folder` joined with `path`.
pub fn join(folder: &str, path: &str) -> (r: String)
    ensures
        r@ == joined(folder@, path@),
{
    proof {
        reveal_strlit("");
        reveal_strlit("/");
        assert("/"@ =~= seq!['/']);
        assert(""@ + path@ =~= path@);
    }
    let chars = crate::text::chars_of(path);
    if chars.len() > 0 && chars[0] == '/' {
        return concat_str("", path);
    }
    let base = crate::text::chars_of(folder);
    if base.len() == 0 || base[base.len() - 1] == '/' {
        concat_str(folder, path)
    } else {
        let with_sep = concat_str(folder, "/");
        concat_str(with_sep.as_str(), path)
    }
}

/// The location of a client file inside the runtime folder `runtime`.
pub fn client_path(runtime: &str, path: &str) -> (r: String)
    ensures
        r@ == client_file(runtime@, path@),
{
    let folder = join(runtime, "client");
    join(folder.as_str(), path)
}

/// The location of a server file inside the runtime folder `runtime`.
pub fn server_path(runtime: &str, path: &str) -> (r: String)
    ensures
        r@ == server_file(runtime@, path@),
{
    let folder = join(runtime, "server");
    join(folder.as_str(), path)
}

/// Where the server keeps its configuration.
pub fn config_path(runtime: &str) -> (r: String)
    ensures
        r@ == server_file(runtime@, "config.toml"@),
{
    server_path(runtime, "config.toml")
}

/// Where the server keeps the player with username `username`.
pub fn player_path(runtime: &str, username: &str) -> (r: String)
    ensures
        r@ == joined(server_file(runtime@, "players"@), username@ + ".toml"@),
{
    let folder = server_path(runtime, "players");
    let file = concat_str(username, ".toml");
    join(folder.as_str(), file.as_str())
}

/// Where the server keeps the map `id`.
pub fn map_path(runtime: &str, id: &str) -> (r: String)
    ensures
        r@ == joined(server_file(runtime@, "maps"@), id@ + ".bin"@),
{
    let folder = server_path(runtime, "maps");
    let file = concat_str(id, ".bin");
    join(folder.as_str(), file.as_str())
}

/// Where the client keeps the asset `source`.
pub fn asset_path(runtime: &str, source: &str) -> (r: String)
    ensures
        r@ == joined(client_file(runtime@, "assets"@), source@),
{
    let folder = client_path(runtime, "assets");
    join(folder.as_str(), source)
}

} // verus!
