use adb_daemon::config::{
    config_dir, config_path, key_path, load_config, Config, ConfigError, ConfigRead, IpAddress,
    SocketAddress, UsbConfig,
};
use adb_daemon::daemon::{
    bind_smartsocket, is_okay, service_request, Bound, Probed, StartError, StartEvent, StartStep,
    PROBE,
};
use adb_daemon::log::{
    event_serial, log_name, may_report, stale_logs, transport_log, writer_for, DeviceSerial, Moment,
    RollingWriter,
};
use adb_daemon::shim::{adb_shim, client_args, daemon_args, real_adb, same_path, ShimError};

fn strings(list: &[&str]) -> Vec<String> {
    list.iter().map(|s| s.to_string()).collect()
}

#[test]
fn devices_are_served_as_configured() {
    let all = UsbConfig::default();
    assert!(all.enabled());
    assert!(all.is_whitelisted("x"));
    let some = UsbConfig::new(Some(false), strings(&["a", "b"]), strings(&["b", "c"]));
    assert!(!some.enabled());
    assert!(some.is_whitelisted("a"));
    assert!(!some.is_whitelisted("b"));
    assert!(!some.is_whitelisted("c"));
    assert!(!some.is_whitelisted("d"));
}

#[test]
fn clients_connect_where_it_is_configured() {
    let mut config = Config::default();
    assert_eq!(
        config.listen_address(),
        SocketAddress { ip: IpAddress::V4 { octets: [0, 0, 0, 0] }, port: 5037 }
    );
    assert_eq!(config.smart_socket_port(), 5037);
    let other = SocketAddress {
        ip: IpAddress::V6 { segments: [0, 0, 0, 0, 0, 0, 0, 1], flowinfo: 0, scope_id: 0 },
        port: 7,
    };
    config.listen_address = Some(other);
    assert_eq!(config.listen_address(), other);
    assert_eq!(config.smart_socket_port(), 7);
}

#[test]
fn files_stand_in_the_home_directory() {
    assert_eq!(config_dir(Some("/home/me")), Ok("/home/me/.android".into()));
    assert_eq!(config_dir(Some("/")), Ok("/.android".into()));
    assert_eq!(config_dir(Some("a\\b")), Ok("a\\b/.android".into()));
    assert_eq!(config_dir(None), Err(ConfigError::NoHomeDir));
    assert_eq!(
        config_path(None, Some("/home/me")),
        Ok("/home/me/.android/adb-daemon.toml".into())
    );
    assert_eq!(config_path(Some("x.toml".into()), None), Ok("x.toml".into()));
    assert_eq!(config_path(None, None), Err(ConfigError::NoHomeDir));
    assert_eq!(key_path(Some("/home/me")), Ok("/home/me/.android/adbkey".into()));

    let mut config = Config::default();
    assert_eq!(config.private_key(Some("/r")), Ok("/r/.android/adbkey".into()));
    config.private_key = Some("/key".into());
    assert_eq!(config.private_key(None), Ok("/key".into()));
    assert_eq!(ConfigError::NoHomeDir.text(), "no home dir");
}

#[test]
fn a_missing_configuration_is_empty() {
    assert_eq!(load_config(ConfigRead::NotFound), Ok(String::new()));
    assert_eq!(load_config(ConfigRead::Data("a".into())), Ok("a".into()));
    assert_eq!(load_config(ConfigRead::Failed), Err(ConfigError::ParseConfigFile));
    assert_eq!(ConfigError::ParseConfigFile.text(), "parse config file");
}

fn moment(year: u32, month: u32, day: u32, second: u32) -> Moment {
    Moment { year, month, day, hour: 3, minute: 4, second }
}

#[test]
fn logs_are_named_after_their_start() {
    assert_eq!(log_name(moment(2024, 2, 29, 5)), "2024_02_29__03_04_05.log");
    let names: Vec<String> = [
        moment(999, 12, 31, 59),
        moment(1999, 12, 31, 59),
        moment(2000, 1, 1, 0),
        moment(2000, 1, 1, 10),
        moment(2000, 1, 2, 0),
        moment(2000, 10, 1, 0),
    ]
    .into_iter()
    .map(log_name)
    .collect();
    assert!(names.windows(2).all(|w| w[0] < w[1]));
}

#[test]
fn old_logs_are_removed() {
    let names = strings(&["b.log", "x.txt", "d.log", "a.log", "log", "c.log", ".log"]);
    assert_eq!(stale_logs(names.clone(), 2), strings(&["b.log", "a.log", ".log"]));
    assert_eq!(stale_logs(names.clone(), 5), strings(&[]));
    assert_eq!(stale_logs(names, 0).len(), 5);

    let writer = RollingWriter::new("/logs".into(), 10, 1);
    let (removed, path) =
        writer.roll(strings(&["a.log", "b.log"]), moment(2024, 2, 29, 5));
    assert_eq!(removed, strings(&["/logs/a.log"]));
    assert_eq!(path, "/logs/2024_02_29__03_04_05.log");

    // Names that only look like ways to a file stand in the directory too.
    let odd = strings(&["a\\b.log", "ab:c.log", "z.log"]);
    let (removed, _) = writer.roll(odd, moment(2024, 2, 29, 5));
    assert_eq!(removed, strings(&["/logs/ab:c.log", "/logs/a\\b.log"]));
}

#[test]
fn logs_roll_beyond_their_size() {
    let writer = RollingWriter::new("/logs".into(), 10, 1);
    assert!(writer.must_roll(None));
    assert!(!writer.must_roll(Some(10)));
    assert!(writer.must_roll(Some(11)));
    assert!(!may_report(60_000_000_000));
    assert!(may_report(60_000_000_001));
}

#[test]
fn devices_have_their_own_logs() {
    let common = writer_for("/logs", Some(String::new()));
    assert_eq!((common.dir.as_str(), common.cutoff, common.count), ("/logs", 10 << 20, 5));
    assert_eq!(writer_for("/logs", None).cutoff, 10 << 20);
    let device = writer_for("/logs", Some("abc".into()));
    assert_eq!((device.dir.as_str(), device.cutoff, device.count), ("/logs/abc", 20 << 20, 5));

    let address = writer_for("/logs", Some("10.0.0.1:5555".into()));
    assert_eq!(address.dir, "/logs/10.0.0.1:5555");
    assert_eq!(writer_for("/logs/", Some("a\\b".into())).dir, "/logs/a\\b");

    let mut config = Config::default();
    assert_eq!(transport_log(&config, true), None);
    config.transport_log = Some("/logs".into());
    assert_eq!(transport_log(&config, true), Some("/logs"));
    assert_eq!(transport_log(&config, false), None);
}

#[test]
fn events_belong_to_the_device_that_they_mention() {
    let mut serial = DeviceSerial::new();
    serial.record_str("name", "x");
    assert_eq!(serial.serial, None);
    serial.record_str("serial", "y");
    assert_eq!(serial.serial, Some("y".into()));
    let spans = vec![None, Some("outer".to_string()), Some("inner".to_string())];
    assert_eq!(event_serial(Some("own".into()), &spans), Some("own".into()));
    assert_eq!(event_serial(None, &spans), Some("outer".into()));
    assert_eq!(event_serial(None, &vec![None]), None);
}

#[test]
fn the_daemon_takes_the_place_of_other_servers() {
    assert_eq!(service_request(PROBE), b"0015host:is-adb-daemon-rs");
    assert!(is_okay(b"OKAY"));
    assert!(!is_okay(b"FAIL") && !is_okay(b"OKAx"));

    let answered = |okay| Probed::Answered { okay };
    let steps = [
        (StartEvent::Started, StartStep::Probe),
        (StartEvent::Probed(answered(true)), StartStep::Running),
        (StartEvent::Probed(answered(false)), StartStep::Kill),
        (StartEvent::Probed(Probed::Refused), StartStep::Bind),
        (StartEvent::Probed(Probed::Failed), StartStep::Fail(StartError::Probe)),
        (StartEvent::Killed(answered(true)), StartStep::Bind),
        (StartEvent::Killed(answered(false)), StartStep::Fail(StartError::NotKilled)),
        (StartEvent::Killed(Probed::Refused), StartStep::Fail(StartError::Kill)),
        (StartEvent::Killed(Probed::Failed), StartStep::Fail(StartError::Kill)),
        (StartEvent::Bound(Bound::Listening), StartStep::Listening),
        (StartEvent::Bound(Bound::InUse), StartStep::Probe),
        (StartEvent::Bound(Bound::Failed), StartStep::Fail(StartError::Bind)),
    ];
    for (event, step) in steps {
        assert_eq!(bind_smartsocket(event), step);
    }
    assert_eq!(StartError::Probe.text(), None);
    assert_eq!(StartError::Kill.text(), Some("kill".into()));
    assert_eq!(StartError::NotKilled.text(), Some("failed to kill adb".into()));
    assert_eq!(StartError::Bind.text(), Some("bind smartsocket".into()));
}

#[test]
fn the_program_stands_in_for_the_client() {
    assert_eq!(adb_shim(Some("adb"), Some(b"/bin/daemon".to_vec())), Ok(Some(b"/bin/daemon".to_vec())));
    assert_eq!(adb_shim(Some("adb"), None), Err(ShimError::NotALink));
    assert_eq!(adb_shim(Some("adb-daemon"), None), Ok(None));
    assert_eq!(adb_shim(None, None), Ok(None));
    assert_eq!(ShimError::NotALink.text(), "must be a link for adb shim to work");

    let bytes = |list: &[&str]| list.iter().map(|s| s.as_bytes().to_vec()).collect::<Vec<_>>();
    assert_eq!(
        daemon_args(&b"/bin/daemon".to_vec(), 12),
        bytes(&["/bin/daemon", "server", "--daemon", "--fd", "12"])
    );
    let found = bytes(&["/a/adb", "/b/adb", "/c/adb"]);
    assert_eq!(real_adb(&found, &b"/a/adb".to_vec()), Ok(b"/b/adb".to_vec()));
    assert_eq!(real_adb(&bytes(&["/a/adb"]), &b"/a/adb".to_vec()), Err(ShimError::AdbNotFound));
    let found = bytes(&["/a//adb", "/./a/adb/", "//a/./adb", "/a/../a/adb"]);
    assert_eq!(real_adb(&found, &b"/a/adb".to_vec()), Ok(b"/a/../a/adb".to_vec()));
    assert_eq!(ShimError::AdbNotFound.text(), "adb not found");
    assert_eq!(
        client_args(&b"/b/adb".to_vec(), &bytes(&["adb", "shell", "ls"])),
        bytes(&["/b/adb", "shell", "ls"])
    );
    assert_eq!(client_args(&b"/b/adb".to_vec(), &vec![]), bytes(&["/b/adb"]));
}

#[test]
fn paths_are_the_same_however_they_are_spelled() {
    let same = |a: &str, b: &str| {
        let expected = std::path::Path::new(a) == std::path::Path::new(b);
        assert_eq!(same_path(&a.as_bytes().to_vec(), &b.as_bytes().to_vec()), expected, "{a} {b}");
        expected
    };
    assert!(same("/usr//bin/adb", "/usr/bin/adb"));
    assert!(same("/usr/./bin/adb/", "/usr/bin/adb"));
    assert!(same("", ""));
    assert!(!same("usr/bin", "/usr/bin"));
    assert!(!same("./a", "a"));
    let all = ["", "/", "//", ".", "./", "/.", "./.", "..", "a", "./a", "././a", "a/.", "a/", "/a",
        "//a", "/./a", "a/b", "a//b", "a/./b", "a/../b", "a/.b", ".a", "..a", "a/b/"];
    for a in all {
        for b in all {
            same(a, b);
        }
    }
}
