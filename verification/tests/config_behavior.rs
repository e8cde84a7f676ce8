use distribeautie::config::get_replicas_addr;
use distribeautie::config::get_server_address;
use distribeautie::config::get_sync_interval_ms;
use distribeautie::config::has_config_property;
use distribeautie::config::is_masterhost;
use distribeautie::config::read_config_property;

fn sample_config() -> Vec<String> {
    vec![
        String::from("server.host=localhost"),
        String::from("server.port=7878"),
        String::from("server.ismasterhost=true"),
        String::from("sync.interval.ms=100"),
        String::from("replicas.addr=localhost:7879,localhost:7880"),
    ]
}

#[test]
fn property_value_is_text_after_equals() {
    let config = sample_config();
    assert_eq!(read_config_property(config.clone(), "server.host"), "localhost");
    assert_eq!(read_config_property(config, "server.port"), "7878");
}

#[test]
fn property_value_stops_at_second_equals() {
    let config = vec![String::from("key=a=b")];
    assert_eq!(read_config_property(config, "key"), "a");
}

#[test]
fn first_matching_line_wins() {
    let config = vec![
        String::from("other=1"),
        String::from("name=first"),
        String::from("name=second"),
    ];
    assert_eq!(read_config_property(config, "name"), "first");
}

#[test]
fn match_is_by_substring() {
    let config = vec![String::from("prefix.server.host.suffix=x")];
    assert_eq!(read_config_property(config, "server.host"), "x");
}

#[test]
fn has_config_property_tests_presence_and_equals() {
    let config = sample_config();
    assert!(has_config_property(&config, "server.host"));
    assert!(!has_config_property(&config, "missing.key"));
    let no_equals = vec![String::from("justakey")];
    assert!(!has_config_property(&no_equals, "justakey"));
}

#[test]
fn server_address_joins_host_and_port() {
    let config = sample_config();
    assert_eq!(get_server_address(&config), "localhost:7878");
}

#[test]
fn masterhost_flag_is_exact_text_true() {
    let config = sample_config();
    assert!(is_masterhost(&config));
    let replica = vec![String::from("server.ismasterhost=false")];
    assert!(!is_masterhost(&replica));
    let odd = vec![String::from("server.ismasterhost=True")];
    assert!(!is_masterhost(&odd));
}

#[test]
fn sync_interval_parses_decimal() {
    let config = sample_config();
    assert_eq!(get_sync_interval_ms(&config), 100);
}

#[test]
fn replicas_are_split_on_commas() {
    let config = sample_config();
    assert_eq!(
        get_replicas_addr(&config),
        vec![String::from("localhost:7879"), String::from("localhost:7880")]
    );
}

#[test]
fn empty_replica_entries_are_filtered() {
    let config = vec![String::from("replicas.addr=,a:1,,b:2,")];
    assert_eq!(get_replicas_addr(&config), vec![String::from("a:1"), String::from("b:2")]);
}

#[test]
fn empty_replica_value_means_no_replicas() {
    let config = vec![String::from("replicas.addr=")];
    assert_eq!(get_replicas_addr(&config), Vec::<String>::new());
}
