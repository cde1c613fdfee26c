use container::config::{create_container_config, Config};
use container::error::{ContainerError, ErrorKind};
use container::path_map::get_container_pathbuf;
use container::serial::{config_to_string, parse_config};
use container::template::{render_template, replace_all};

fn sample_config() -> Config {
    Config {
        host: String::from("127.0.0.1"),
        port: 8080,
        directory: String::from("/home/u/site"),
        filepath_403: String::from("/home/u/site/403.html"),
        filepath_404: String::from("/home/u/site/404.html"),
        filepath_500: String::from("/home/u/site/500.html"),
    }
}

#[test]
fn remap_scenario() {
    let r = get_container_pathbuf(
        &String::from("/home/u/site"),
        &String::from("/home/u/site/403.html"),
        &String::from("/usr/share/www"),
    );
    assert_eq!(r.unwrap(), "/usr/share/www/403.html");
}

#[test]
fn remap_nested_descendant() {
    let r = get_container_pathbuf(
        &String::from("/srv/data"),
        &String::from("/srv/data/pages/err/404.html"),
        &String::from("/usr/share/www"),
    );
    assert_eq!(r.unwrap(), "/usr/share/www/pages/err/404.html");
}

#[test]
fn remap_of_base_itself_is_target() {
    let r = get_container_pathbuf(
        &String::from("/home/u/site"),
        &String::from("/home/u/site"),
        &String::from("/usr/share/www"),
    );
    assert_eq!(r.unwrap(), "/usr/share/www");
}

#[test]
fn remap_accepts_separator_terminated_base() {
    let r = get_container_pathbuf(
        &String::from("/home/u/site/"),
        &String::from("/home/u/site/403.html"),
        &String::from("/usr/share/www"),
    );
    assert_eq!(r.unwrap(), "/usr/share/www/403.html");
}

#[test]
fn remap_from_root_directory() {
    let r = get_container_pathbuf(
        &String::from("/"),
        &String::from("/403.html"),
        &String::from("/usr/share/www"),
    );
    assert_eq!(r.unwrap(), "/usr/share/www/403.html");
}

#[test]
fn remap_rejects_non_descendant() {
    let r = get_container_pathbuf(
        &String::from("/home/u/site"),
        &String::from("/home/u/other/403.html"),
        &String::from("/usr/share/www"),
    );
    let e = r.err().unwrap();
    assert_eq!(e.kind, ErrorKind::PathMapping);
    assert_eq!(e.message, "failed to create container path");
}

#[test]
fn remap_rejects_sibling_with_common_text_prefix() {
    // "/home/u/sites" begins with the text of "/home/u/site" but is no
    // descendant of it: no separator follows the prefix.
    let r = get_container_pathbuf(
        &String::from("/home/u/site"),
        &String::from("/home/u/sites/403.html"),
        &String::from("/usr/share/www"),
    );
    assert_eq!(r.err().unwrap().kind, ErrorKind::PathMapping);
}

#[test]
fn container_config_forces_host_and_port() {
    let cfg = Config { host: String::from("10.1.2.3"), port: 9999, ..sample_config() };
    let out = create_container_config(&cfg).unwrap();
    assert_eq!(out.host, "0.0.0.0");
    assert_eq!(out.port, 3000);
    assert_eq!(out.directory, "/usr/share/www");
    assert_eq!(out.filepath_403, "/usr/share/www/403.html");
    assert_eq!(out.filepath_404, "/usr/share/www/404.html");
    assert_eq!(out.filepath_500, "/usr/share/www/500.html");
}

#[test]
fn container_config_fails_on_stray_error_page() {
    let cfg = Config { filepath_404: String::from("/etc/404.html"), ..sample_config() };
    let e = create_container_config(&cfg).err().unwrap();
    assert_eq!(e.kind, ErrorKind::PathMapping);
}

#[test]
fn serializes_to_exact_canonical_text() {
    let out = config_to_string(&sample_config()).unwrap();
    assert_eq!(
        out,
        "{\"host\":\"127.0.0.1\",\"port\":8080,\"directory\":\"/home/u/site\",\"filepath_403\":\"/home/u/site/403.html\",\"filepath_404\":\"/home/u/site/404.html\",\"filepath_500\":\"/home/u/site/500.html\"}"
    );
}

#[test]
fn serialize_rejects_quote_in_field() {
    let cfg = Config { host: String::from("a\"b"), ..sample_config() };
    let e = config_to_string(&cfg).err().unwrap();
    assert_eq!(e.kind, ErrorKind::Serialization);
    assert_eq!(e.message, "failed to convert config into string");
}

#[test]
fn serialize_rejects_backslash_in_field() {
    let cfg = Config { directory: String::from("C:\\www"), ..sample_config() };
    assert_eq!(config_to_string(&cfg).err().unwrap().kind, ErrorKind::Serialization);
}

#[test]
fn write_then_parse_round_trip() {
    let cfg = sample_config();
    let text = config_to_string(&cfg).unwrap();
    let back = parse_config(&text).unwrap();
    assert_eq!(back.host, cfg.host);
    assert_eq!(back.port, cfg.port);
    assert_eq!(back.directory, cfg.directory);
    assert_eq!(back.filepath_403, cfg.filepath_403);
    assert_eq!(back.filepath_404, cfg.filepath_404);
    assert_eq!(back.filepath_500, cfg.filepath_500);
}

#[test]
fn round_trip_of_remapped_config() {
    let out = create_container_config(&sample_config()).unwrap();
    let text = config_to_string(&out).unwrap();
    let back = parse_config(&text).unwrap();
    assert_eq!(back.host, "0.0.0.0");
    assert_eq!(back.port, 3000);
    assert_eq!(back.directory, "/usr/share/www");
}

#[test]
fn parse_rejects_plain_garbage() {
    assert!(parse_config("hello").is_none());
    assert!(parse_config("").is_none());
}

#[test]
fn parse_rejects_trailing_garbage() {
    let text = config_to_string(&sample_config()).unwrap();
    let longer = format!("{} ", text);
    assert!(parse_config(&longer).is_none());
}

#[test]
fn parse_rejects_non_canonical_port() {
    let with_leading_zero = "{\"host\":\"h\",\"port\":08080,\"directory\":\"/d\",\"filepath_403\":\"/d/a\",\"filepath_404\":\"/d/b\",\"filepath_500\":\"/d/c\"}";
    assert!(parse_config(with_leading_zero).is_none());
    let too_large = "{\"host\":\"h\",\"port\":70000,\"directory\":\"/d\",\"filepath_403\":\"/d/a\",\"filepath_404\":\"/d/b\",\"filepath_500\":\"/d/c\"}";
    assert!(parse_config(too_large).is_none());
}

#[test]
fn render_scenario() {
    let cfg = Config {
        host: String::from("0.0.0.0"),
        port: 3000,
        directory: String::from("/usr/share/www"),
        ..sample_config()
    };
    let out = render_template("{host}:{port}/{directory}", &cfg);
    assert_eq!(out, "0.0.0.0:3000//usr/share/www");
}

#[test]
fn render_replaces_every_occurrence() {
    let cfg = Config {
        host: String::from("0.0.0.0"),
        port: 3000,
        directory: String::from("/usr/share/www"),
        ..sample_config()
    };
    let out = render_template("{port} and again {port}", &cfg);
    assert_eq!(out, "3000 and again 3000");
}

#[test]
fn render_is_idempotent_when_no_token_reappears() {
    let cfg = Config {
        host: String::from("0.0.0.0"),
        port: 3000,
        directory: String::from("/usr/share/www"),
        ..sample_config()
    };
    let once = render_template("listen {host}:{port} in {directory}", &cfg);
    let twice = render_template(&once, &cfg);
    assert_eq!(twice, once);
}

#[test]
fn render_substitutes_in_sequence() {
    // The host value may itself introduce a later token: substitutions run
    // in sequence, so the port substitution then rewrites it.
    let cfg = Config {
        host: String::from("{port}"),
        port: 3000,
        directory: String::from("/usr/share/www"),
        ..sample_config()
    };
    let out = render_template("{host}", &cfg);
    assert_eq!(out, "3000");
}

#[test]
fn render_of_empty_template_is_empty() {
    let out = render_template("", &sample_config());
    assert_eq!(out, "");
}

#[test]
fn render_port_boundaries() {
    let low = Config { port: 0, ..sample_config() };
    assert_eq!(render_template("{port}", &low), "0");
    let high = Config { port: 65535, ..sample_config() };
    assert_eq!(render_template("{port}", &high), "65535");
}

#[test]
fn replace_all_handles_adjacent_and_edge_occurrences() {
    assert_eq!(replace_all("abab", "ab", "x"), "xx");
    assert_eq!(replace_all("aaa", "aa", "b"), "ba");
    assert_eq!(replace_all("abc", "z", "y"), "abc");
}

#[test]
fn error_new_keeps_kind_and_message() {
    let e = ContainerError::new(ErrorKind::TemplateUnreadable, "podman-compose template was not found");
    assert_eq!(e.kind, ErrorKind::TemplateUnreadable);
    assert_eq!(e.message, "podman-compose template was not found");
}
