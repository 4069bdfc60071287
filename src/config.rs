//! User settings and the places under the user's home directory where the
//! tool keeps its files.
use vstd::prelude::*;

verus! {

/// User settings.
pub struct AethrConfig {
    pub auto_save: bool,
    pub share_to_community: bool,
    pub shell_hook_installed: bool,
}

impl Default for AethrConfig {
    fn default() -> (r: Self)
        ensures
            !r.auto_save,
            !r.share_to_community,
            !r.shell_hook_installed,
    {
        AethrConfig { auto_save: false, share_to_community: false, shell_hook_installed: false }
    }
}

/// Relies on `dirs::home_dir`: the user's home directory, where the platform
/// tells one.
#[verifier::external_body]
fn home_dir() -> (r: Option<String>) {
    dirs::home_dir().map(|p| p.to_string_lossy().into_owned())
}

/// The configuration directory under `home`, or under the working directory
/// where no home is known.
pub open spec fn config_dir_of(home: Option<Seq<char>>) -> Seq<char> {
    match home {
        Some(h) => h + "/.aethr"@,
        None => "./.aethr"@,
    }
}

/// The configuration directory under `home`.
pub fn config_dir_in(home: Option<String>) -> (r: String)
    ensures
        r@ == config_dir_of(match home {
            Some(h) => Some(h@),
            None => None,
        }),
{
    match home {
        Some(h) => {
            let mut d = h;
            d.append("/.aethr");
            d
        },
        None => String::from_str("./.aethr"),
    }
}

/// The root configuration directory.
pub fn config_dir() -> (r: String)
    ensures
        exists|home: Option<Seq<char>>| r@ == config_dir_of(home),
{
    let home = home_dir();
    config_dir_in(home)
}

/// `file` inside the configuration directory.
pub fn config_file(file: &str) -> (r: String)
    ensures
        exists|home: Option<Seq<char>>| r@ == config_dir_of(home) + "/"@ + file@,
{
    let mut d = config_dir();
    d.append("/");
    d.append(file);
    d
}

/// The local database.
pub fn get_db_path() -> (r: String)
    ensures
        exists|home: Option<Seq<char>>| r@ == config_dir_of(home) + "/"@ + "aethr.db"@,
{
    config_file("aethr.db")
}

/// The command log the shell hook writes.
pub fn get_cmd_log_path() -> (r: String)
    ensures
        exists|home: Option<Seq<char>>| r@ == config_dir_of(home) + "/"@ + "commands.log"@,
{
    config_file("commands.log")
}

/// The shell hook script.
pub fn get_hook_script_path() -> (r: String)
    ensures
        exists|home: Option<Seq<char>>| r@ == config_dir_of(home) + "/"@ + "hook.sh"@,
{
    config_file("hook.sh")
}

/// The daemon's socket.
pub fn get_daemon_socket_path() -> (r: String)
    ensures
        exists|home: Option<Seq<char>>| r@ == config_dir_of(home) + "/"@ + "daemon.sock"@,
{
    config_file("daemon.sock")
}

/// The stored access token.
pub fn get_token_path() -> (r: String)
    ensures
        exists|home: Option<Seq<char>>| r@ == config_dir_of(home) + "/"@ + "token"@,
{
    config_file("token")
}

} // verus!
