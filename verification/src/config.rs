//! The configuration: which devices are served, where clients connect, and
//! where the files are.

use camino::Utf8Path;
use vstd::hash_set::StringHashSet;
use vstd::prelude::*;
use crate::banner::texts;
use crate::text::{has_prefix, has_suffix};

verus! {

/// Which devices on USB are served.
pub struct UsbConfig {
    /// Whether any are; they are where nothing is said.
    pub enabled: Option<bool>,
    /// Only these serial numbers, unless it is empty.
    pub included: StringHashSet,
    /// Not these serial numbers.
    pub excluded: StringHashSet,
}

fn set_of(list: Vec<String>) -> (set: StringHashSet)
    ensures
        set@ == texts(list@).to_set(),
{
    let mut set = StringHashSet::new();
    let mut i: usize = 0;
    assert(set@ =~= texts(list@).take(0).to_set());
    while i < list.len()
        invariant
            i <= list@.len(),
            set@ == texts(list@).take(i as int).to_set(),
        decreases list@.len() - i,
    {
        let ghost all = texts(list@);
        set.insert(list[i].clone());
        proof {
            let before = all.take(i as int);
            let after = all.take(i + 1);
            assert(after =~= before.push(all[i as int]));
            assert forall|s: Seq<char>| after.to_set().contains(s) == before.to_set().insert(
                all[i as int],
            ).contains(s) by {
                if before.contains(s) {
                    let j = choose|j: int| 0 <= j < before.len() && before[j] == s;
                    assert(after[j] == s);
                }
                if after.contains(s) {
                    let j = choose|j: int| 0 <= j < after.len() && after[j] == s;
                    if j < i {
                        assert(before[j] == s);
                    }
                }
                assert(after[i as int] == all[i as int]);
            }
            assert(after.to_set() =~= before.to_set().insert(all[i as int]));
        }
        i += 1;
    }
    assert(texts(list@).take(i as int) =~= texts(list@));
    set
}

/// Whether the serial number is among those that are served.
pub open spec fn whitelisted(
    included: Set<Seq<char>>,
    excluded: Set<Seq<char>>,
    serial: Seq<char>,
) -> bool {
    (included.is_empty() || included.contains(serial)) && !excluded.contains(serial)
}

impl UsbConfig {
    /// The configuration with these lists.
    pub fn new(enabled: Option<bool>, included: Vec<String>, excluded: Vec<String>) -> (config:
        UsbConfig)
        ensures
            config.enabled == enabled,
            config.included@ == texts(included@).to_set(),
            config.excluded@ == texts(excluded@).to_set(),
    {
        UsbConfig { enabled, included: set_of(included), excluded: set_of(excluded) }
    }

    /// Whether devices on USB are served.
    pub fn enabled(&self) -> (enabled: bool)
        ensures
            enabled == match self.enabled {
                Some(enabled) => enabled,
                None => true,
            },
    {
        match self.enabled {
            Some(enabled) => enabled,
            None => true,
        }
    }

    /// Whether the device with this serial number is served.
    pub fn is_whitelisted(&self, serial: &str) -> (yes: bool)
        ensures
            yes == whitelisted(self.included@, self.excluded@, serial@),
    {
        (self.included.is_empty() || self.included.contains(serial)) && !self.excluded.contains(
            serial,
        )
    }
}

impl Default for UsbConfig {
    fn default() -> (config: UsbConfig)
        ensures
            config.enabled is None,
            config.included@ == Set::<Seq<char>>::empty(),
            config.excluded@ == Set::<Seq<char>>::empty(),
    {
        UsbConfig {
            enabled: None,
            included: StringHashSet::new(),
            excluded: StringHashSet::new(),
        }
    }
}

/// The address of a host.
#[derive(Debug, Clone, Copy, PartialEq, Eq)]
pub enum IpAddress {
    V4 { octets: [u8; 4] },
    V6 { segments: [u16; 8], flowinfo: u32, scope_id: u32 },
}

/// Where a socket listens.
#[derive(Debug, Clone, Copy, PartialEq, Eq)]
pub struct SocketAddress {
    pub ip: IpAddress,
    pub port: u16,
}

/// The port at which clients look for the daemon.
pub const DEFAULT_PORT: u16 = 5037;

/// The configuration.
pub struct Config {
    pub listen_address: Option<SocketAddress>,
    pub usb: UsbConfig,
    pub transport_log: Option<String>,
    pub private_key: Option<String>,
}

/// What is wrong with the configuration.
#[derive(Debug, Clone, Copy, PartialEq, Eq)]
pub enum ConfigError {
    NoHomeDir,
    ParseConfigFile,
}

impl ConfigError {
    /// What is said of it.
    pub open spec fn spec_text(self) -> Seq<char> {
        match self {
            ConfigError::NoHomeDir => "no home dir"@,
            ConfigError::ParseConfigFile => "parse config file"@,
        }
    }

    /// What is said of it.
    pub fn text(&self) -> (text: String)
        ensures
            text@ == self.spec_text(),
    {
        match self {
            ConfigError::NoHomeDir => "no home dir".to_owned(),
            ConfigError::ParseConfigFile => "parse config file".to_owned(),
        }
    }
}

/// Whether the name is put behind a directory on every machine: it starts
/// neither at the root nor with a drive.
pub open spec fn plain_name(name: Seq<char>) -> bool {
    name.len() > 0 && name[0] != '/' && name[0] != '\\' && !(name.len() > 1 && name[1] == ':')
}

/// Whether the path starts like one that Windows takes literally.
pub open spec fn is_verbatim(path: Seq<char>) -> bool {
    has_prefix(path, "\\\\?\\"@)
}

/// Whether `path` is the name behind the directory, with one separator in
/// between where the directory does not end with one. It is left open which
/// separator the machine has.
pub open spec fn stands_in(base: Seq<char>, name: Seq<char>, path: Seq<char>) -> bool {
    if base.len() == 0 || base.last() == '/' {
        path == base + name
    } else {
        ||| path == base + "/"@ + name
        ||| path == base + "\\"@ + name
        ||| (base.last() == '\\' || base.len() == 2 && base[1] == ':') && path == base + name
    }
}

/// Whether `path` is the name behind the start of the directory: behind its
/// drive, or behind nothing of it.
pub open spec fn stands_at_root(base: Seq<char>, name: Seq<char>, path: Seq<char>) -> bool {
    exists|kept: int| 0 <= kept <= base.len() && path == #[trigger] base.take(kept) + name
}

/// Whether `path` is where `name` leads from the directory `base`. A plain name
/// stands in the directory. One that starts at the root or with a drive may
/// stand in the directory or take its place, as the machine has it. Either way
/// the path ends with the name. What becomes of a directory that Windows takes
/// literally is left open.
pub open spec fn joins(base: Seq<char>, name: Seq<char>, path: Seq<char>) -> bool {
    !is_verbatim(base) ==> {
        &&& has_suffix(path, name)
        &&& stands_in(base, name, path) || !plain_name(name) && stands_at_root(base, name, path)
    }
}

/// `Utf8Path::join` puts a name behind a directory, with the separator of the
/// machine in between where the directory does not end with one. On Windows a
/// drive alone gets no separator. A name that starts at the root, or on Windows
/// with a drive, takes the place of the directory or of what follows its drive.
/// Of directories that start with `\\?\` nothing is claimed: Windows rewrites
/// them, other machines do not.
#[verifier::external_body]
pub(crate) fn join(base: &str, name: &str) -> (path: String)
    ensures
        joins(base@, name@, path@),
{
    Utf8Path::new(base).join(name).into_string()
}

/// The directory of the configuration in the home directory.
pub const CONFIG_DIR: &'static str = ".android";

/// The configuration file.
pub const CONFIG_FILE: &'static str = "adb-daemon.toml";

/// The file of the private key.
pub const KEY_FILE: &'static str = "adbkey";

/// Whether `path` is the file `name` in the configuration directory.
pub open spec fn in_config_dir(home: Seq<char>, name: Seq<char>, path: Seq<char>) -> bool {
    exists|dir: Seq<char>| #[trigger] joins(home, CONFIG_DIR@, dir) && joins(dir, name, path)
}

/// The directory of the configuration.
pub fn config_dir(home: Option<&str>) -> (dir: Result<String, ConfigError>)
    ensures
        match home {
            Some(home) => dir matches Ok(d) && joins(home@, CONFIG_DIR@, d@),
            None => dir == Err::<String, _>(ConfigError::NoHomeDir),
        },
{
    match home {
        Some(home) => Ok(join(home, CONFIG_DIR)),
        None => Err(ConfigError::NoHomeDir),
    }
}

fn config_file(home: Option<&str>, name: &str) -> (path: Result<String, ConfigError>)
    ensures
        match home {
            Some(home) => path matches Ok(p) && in_config_dir(home@, name@, p@),
            None => path == Err::<String, _>(ConfigError::NoHomeDir),
        },
{
    match config_dir(home) {
        Ok(dir) => Ok(join(dir.as_str(), name)),
        Err(e) => Err(e),
    }
}

/// The configuration file: the one that the environment names, or the one in
/// the configuration directory.
pub fn config_path(env: Option<String>, home: Option<&str>) -> (path: Result<String, ConfigError>)
    ensures
        match env {
            Some(env) => path matches Ok(p) && p@ == env@,
            None => match home {
                Some(home) => path matches Ok(p) && in_config_dir(home@, CONFIG_FILE@, p@),
                None => path == Err::<String, _>(ConfigError::NoHomeDir),
            },
        },
{
    match env {
        Some(env) => Ok(env),
        None => config_file(home, CONFIG_FILE),
    }
}

/// The file of the private key where none is configured.
pub fn key_path(home: Option<&str>) -> (path: Result<String, ConfigError>)
    ensures
        match home {
            Some(home) => path matches Ok(p) && in_config_dir(home@, KEY_FILE@, p@),
            None => path == Err::<String, _>(ConfigError::NoHomeDir),
        },
{
    config_file(home, KEY_FILE)
}

/// What reading the configuration file gave.
#[derive(Debug)]
pub enum ConfigRead {
    Data(String),
    NotFound,
    Failed,
}

/// The text of the configuration: a file that is not there counts as empty.
pub fn load_config(read: ConfigRead) -> (data: Result<String, ConfigError>)
    ensures
        match read {
            ConfigRead::Data(text) => data matches Ok(d) && d@ == text@,
            ConfigRead::NotFound => data matches Ok(d) && d@ == ""@,
            ConfigRead::Failed => data == Err::<String, _>(ConfigError::ParseConfigFile),
        },
{
    match read {
        ConfigRead::Data(text) => Ok(text),
        ConfigRead::NotFound => Ok("".to_owned()),
        ConfigRead::Failed => Err(ConfigError::ParseConfigFile),
    }
}

impl Config {
    /// Where clients connect.
    pub fn listen_address(&self) -> (address: SocketAddress)
        ensures
            match self.listen_address {
                Some(a) => address == a,
                None => {
                    &&& address.port == DEFAULT_PORT
                    &&& address.ip matches IpAddress::V4 { octets }
                    &&& octets@ == seq![0u8, 0, 0, 0]
                },
            },
    {
        match self.listen_address {
            Some(address) => address,
            None => {
                let octets: [u8; 4] = [0, 0, 0, 0];
                assert(octets@ =~= seq![0u8, 0, 0, 0]);
                SocketAddress { ip: IpAddress::V4 { octets }, port: DEFAULT_PORT }
            },
        }
    }

    /// The port at which clients connect.
    pub fn smart_socket_port(&self) -> (port: u16)
        ensures
            port == match self.listen_address {
                Some(a) => a.port,
                None => DEFAULT_PORT,
            },
    {
        self.listen_address().port
    }

    /// The file of the private key: the one that is configured, or the one in
    /// the configuration directory.
    pub fn private_key(&self, home: Option<&str>) -> (path: Result<String, ConfigError>)
        ensures
            match self.private_key {
                Some(key) => path matches Ok(p) && p@ == key@,
                None => match home {
                    Some(home) => path matches Ok(p) && in_config_dir(home@, KEY_FILE@, p@),
                    None => path == Err::<String, _>(ConfigError::NoHomeDir),
                },
            },
    {
        match &self.private_key {
            Some(key) => Ok(key.clone()),
            None => key_path(home),
        }
    }
}

impl Default for Config {
    fn default() -> (config: Config)
        ensures
            config.listen_address is None,
            config.usb.enabled is None,
            config.usb.included@ == Set::<Seq<char>>::empty(),
            config.usb.excluded@ == Set::<Seq<char>>::empty(),
            config.transport_log is None,
            config.private_key is None,
    {
        Config {
            listen_address: None,
            usb: UsbConfig::default(),
            transport_log: None,
            private_key: None,
        }
    }
}

/// A serial number that is excluded is never served, whether included or not.
pub proof fn law_exclusion_wins(
    included: Set<Seq<char>>,
    excluded: Set<Seq<char>>,
    serial: Seq<char>,
)
    requires
        excluded.contains(serial),
    ensures
        !whitelisted(included, excluded, serial),
{
}

/// Where nothing is included or excluded, every device is served.
pub proof fn law_every_device_by_default(serial: Seq<char>)
    ensures
        whitelisted(Set::empty(), Set::empty(), serial),
{
}

/// Whether it is a separator of some machine.
pub open spec fn is_separator(s: Seq<char>) -> bool {
    s == "/"@ || s == "\\"@
}

/// The files of the configuration stand in `.android` in the home directory,
/// with one separator before and one behind that name, where the home
/// directory is neither a drive alone nor taken literally and does not end
/// with a separator.
pub proof fn law_config_files_stand_under_home(home: Seq<char>, name: Seq<char>, path: Seq<char>)
    requires
        home.len() > 2,
        home.last() != '/',
        home.last() != '\\',
        !is_verbatim(home),
        !is_verbatim(home + "\\"@),
        plain_name(name),
        in_config_dir(home, name, path),
    ensures
        exists|first: Seq<char>, second: Seq<char>|
            #[trigger] is_separator(first) && #[trigger] is_separator(second) && path == home
                + first + CONFIG_DIR@ + second + name,
{
    reveal_strlit(".android");
    reveal_strlit("/");
    reveal_strlit("\\");
    reveal_strlit("\\\\?\\");
    let dir = choose|dir: Seq<char>| #[trigger]
        joins(home, CONFIG_DIR@, dir) && joins(dir, name, path);
    assert(plain_name(CONFIG_DIR@));
    let first = if dir == home + "/"@ + CONFIG_DIR@ {
        "/"@
    } else {
        "\\"@
    };
    assert(dir == home + first + CONFIG_DIR@);
    assert(dir.last() == 'd');
    if is_verbatim(dir) {
        let mark = "\\\\?\\"@;
        let longer = home + "\\"@;
        assert(dir.take(4) =~= mark);
        if home.len() == 3 {
            assert(dir.take(4)[3] == first[0]);
            assert(longer.take(4) =~= mark);
        } else {
            assert(home.take(4) =~= mark);
        }
        assert(false);
    }
    let second = if path == dir + "/"@ + name {
        "/"@
    } else {
        "\\"@
    };
    assert(is_separator(first) && is_separator(second));
    assert(path == home + first + CONFIG_DIR@ + second + name);
}

/// Two plain names never stand at one path of a directory.
pub proof fn law_paths_tell_names_apart(
    base: Seq<char>,
    a: Seq<char>,
    b: Seq<char>,
    path: Seq<char>,
)
    requires
        !is_verbatim(base),
        plain_name(a),
        plain_name(b),
        joins(base, a, path),
        joins(base, b, path),
    ensures
        a == b,
{
    reveal_strlit("/");
    reveal_strlit("\\");
    let n = base.len() as int;
    if path.len() == n + a.len() {
        assert(path[n] == a[0]);
        assert(path.len() == n + b.len());
        assert(a =~= path.skip(n));
        assert(b =~= path.skip(n));
    } else {
        assert(path.len() == n + 1 + a.len());
        if path.len() == n + b.len() {
            assert(path[n] == b[0]);
        }
        assert(a =~= path.skip(n + 1));
        assert(b =~= path.skip(n + 1));
    }
}

/// A device is served exactly if its serial number is listed nowhere among those
/// to leave out and, where any are listed to serve, among them. Devices are
/// served unless that is switched off.
pub proof fn law_lists_say_which_devices_are_served(
    on: Option<bool>,
    included: Vec<String>,
    excluded: Vec<String>,
    config: UsbConfig,
    enabled: bool,
    serial: &str,
    yes: bool,
)
    requires
        call_ensures(UsbConfig::new, (on, included, excluded), config),
        call_ensures(UsbConfig::enabled, (&config,), enabled),
        call_ensures(UsbConfig::is_whitelisted, (&config, serial), yes),
    ensures
        enabled <==> on != Some(false),
        yes <==> {
            &&& forall|i: int| 0 <= i < excluded@.len() ==> (#[trigger] excluded@[i])@ != serial@
            &&& included@.len() == 0 || exists|i: int|
                0 <= i < included@.len() && (#[trigger] included@[i])@ == serial@
        },
{
    let ins = texts(included@);
    let outs = texts(excluded@);
    assert(ins.len() == included@.len() && outs.len() == excluded@.len());
    if included@.len() == 0 {
        assert(ins.to_set() =~= Set::empty());
    } else {
        assert(ins[0] == included@[0]@);
        assert(ins.to_set().contains(ins[0]));
    }
    if outs.contains(serial@) {
        let i = choose|i: int| 0 <= i < outs.len() && outs[i] == serial@;
        assert(excluded@[i]@ == serial@);
    }
    if ins.contains(serial@) {
        let i = choose|i: int| 0 <= i < ins.len() && ins[i] == serial@;
        assert(included@[i]@ == serial@);
    }
    assert forall|i: int| 0 <= i < excluded@.len() && (#[trigger] excluded@[i])@
        == serial@ implies outs.contains(serial@) by {
        assert(outs[i] == serial@);
    }
    assert forall|i: int| 0 <= i < included@.len() && (#[trigger] included@[i])@
        == serial@ implies ins.contains(serial@) by {
        assert(ins[i] == serial@);
    }
}

/// Clients connect where it is configured, and else on every address at the port
/// of ADB.
pub proof fn law_clients_know_where_to_connect(config: &Config, address: SocketAddress, port: u16)
    requires
        call_ensures(Config::listen_address, (config,), address),
        call_ensures(Config::smart_socket_port, (config,), port),
    ensures
        port == address.port,
        config.listen_address matches Some(a) ==> address == a,
        config.listen_address is None ==> address.port == 5037 && (address.ip matches IpAddress::V4 {
            octets,
        } && forall|i: int| 0 <= i < 4 ==> #[trigger] octets@[i] == 0),
{
}

/// Whether the file of the configuration is this one in the home directory.
pub open spec fn is_config_file(home: Seq<char>, name: Seq<char>, path: Seq<char>) -> bool {
    exists|first: Seq<char>, second: Seq<char>|
        #[trigger] is_separator(first) && #[trigger] is_separator(second) && path == home + first
            + ".android"@ + second + name
}

/// The files are where the environment or the configuration says. Else they are
/// `adb-daemon.toml` and `adbkey` in `.android` in the home directory, and
/// without one they are nowhere.
pub proof fn law_files_are_where_they_are_said_to_be(
    env: Option<String>,
    config: &Config,
    home: &str,
    file: Result<String, ConfigError>,
    key: Result<String, ConfigError>,
    standard: Result<String, ConfigError>,
    no_file: Result<String, ConfigError>,
    no_key: Result<String, ConfigError>,
    no_standard: Result<String, ConfigError>,
)
    requires
        home@.len() > 2,
        home@.last() != '/',
        home@.last() != '\\',
        !is_verbatim(home@),
        !is_verbatim(home@ + "\\"@),
        call_ensures(config_path, (env, Some(home)), file),
        call_ensures(Config::private_key, (config, Some(home)), key),
        call_ensures(key_path, (Some(home),), standard),
        call_ensures(config_path, (env, None), no_file),
        call_ensures(Config::private_key, (config, None), no_key),
        call_ensures(key_path, (None,), no_standard),
    ensures
        env matches Some(e) ==> (file matches Ok(p) && p@ == e@) && (no_file matches Ok(p) && p@
            == e@),
        env is None ==> (file matches Ok(p) && is_config_file(home@, "adb-daemon.toml"@, p@))
            && no_file == Err::<String, _>(ConfigError::NoHomeDir),
        config.private_key matches Some(k) ==> (key matches Ok(p) && p@ == k@) && (no_key matches Ok(
            p,
        ) && p@ == k@),
        config.private_key is None ==> (key matches Ok(p) && is_config_file(home@, "adbkey"@, p@))
            && no_key == Err::<String, _>(ConfigError::NoHomeDir),
        standard matches Ok(p) && is_config_file(home@, "adbkey"@, p@),
        no_standard == Err::<String, _>(ConfigError::NoHomeDir),
{
    reveal_strlit("adb-daemon.toml");
    reveal_strlit("adbkey");
    assert(plain_name("adb-daemon.toml"@));
    assert(plain_name("adbkey"@));
    if let (None, Ok(p)) = (env, file) {
        law_config_files_stand_under_home(home@, "adb-daemon.toml"@, p@);
        let (a, b) = choose|a: Seq<char>, b: Seq<char>|
            #[trigger] is_separator(a) && #[trigger] is_separator(b) && p@ == home@ + a
                + CONFIG_DIR@ + b + "adb-daemon.toml"@;
        assert(is_separator(a) && is_separator(b));
    }
    if let (None, Ok(p)) = (config.private_key, key) {
        law_config_files_stand_under_home(home@, "adbkey"@, p@);
        let (a, b) = choose|a: Seq<char>, b: Seq<char>|
            #[trigger] is_separator(a) && #[trigger] is_separator(b) && p@ == home@ + a
                + CONFIG_DIR@ + b + "adbkey"@;
        assert(is_separator(a) && is_separator(b));
    }
    if let Ok(p) = standard {
        law_config_files_stand_under_home(home@, "adbkey"@, p@);
        let (a, b) = choose|a: Seq<char>, b: Seq<char>|
            #[trigger] is_separator(a) && #[trigger] is_separator(b) && p@ == home@ + a
                + CONFIG_DIR@ + b + "adbkey"@;
        assert(is_separator(a) && is_separator(b));
    }
}

/// What the configuration file holds is taken as it is; one that is not there
/// holds nothing, and one that cannot be read is an error.
pub proof fn law_missing_configuration_is_empty(
    read: ConfigRead,
    data: Result<String, ConfigError>,
)
    requires
        call_ensures(load_config, (read,), data),
    ensures
        read matches ConfigRead::Data(text) ==> (data matches Ok(d) && d@ == text@),
        read is NotFound ==> (data matches Ok(d) && d@.len() == 0),
        read is Failed <==> data == Err::<String, _>(ConfigError::ParseConfigFile),
        read is Failed <==> data is Err,
{
    reveal_strlit("");
}

/// Where nothing is configured, every device is served, to clients at the port of
/// ADB.
pub proof fn law_nothing_needs_to_be_configured(
    config: Config,
    serial: &str,
    enabled: bool,
    yes: bool,
    port: u16,
)
    requires
        call_ensures(Config::default, (), config),
        call_ensures(UsbConfig::enabled, (&config.usb,), enabled),
        call_ensures(UsbConfig::is_whitelisted, (&config.usb, serial), yes),
        call_ensures(Config::smart_socket_port, (&config,), port),
    ensures
        enabled,
        yes,
        port == 5037,
        config.transport_log is None,
        config.private_key is None,
{
}

/// Each thing that can be wrong with the configuration has its words.
pub proof fn law_configuration_errors_have_their_words(home: String, parse: String)
    requires
        call_ensures(ConfigError::text, (&ConfigError::NoHomeDir,), home),
        call_ensures(ConfigError::text, (&ConfigError::ParseConfigFile,), parse),
    ensures
        home@ == "no home dir"@,
        parse@ == "parse config file"@,
{
}

} // verus!
