use config_compiler::id::ComponentKey;
use config_compiler::resource::{IpAddress, Resource, SocketAddress};

fn key(name: &str) -> ComponentKey {
    ComponentKey::new(name.to_owned())
}

fn localhost(port: u16) -> Resource {
    Resource::tcp(SocketAddress::new(IpAddress::V4(127, 0, 0, 1), port))
}

fn claimant_names(entry: &(Resource, Vec<ComponentKey>)) -> Vec<String> {
    let mut names: Vec<String> = entry.1.iter().map(|k| k.id().to_owned()).collect();
    names.sort();
    names
}

#[test]
fn valid() {
    let components = vec![
        (key("sink_0"), vec![localhost(0)]),
        (key("sink_1"), vec![localhost(1)]),
        (key("sink_2"), vec![localhost(2)]),
    ];
    let conflicting = Resource::conflicts(&components);
    assert_eq!(conflicting.len(), 0);
}

#[test]
fn conflicting_pair() {
    let components = vec![
        (key("sink_0"), vec![localhost(0)]),
        (key("sink_1"), vec![localhost(2)]),
        (key("sink_2"), vec![localhost(2)]),
    ];
    let conflicting = Resource::conflicts(&components);
    assert_eq!(conflicting.len(), 1);
    assert!(conflicting[0].0 == localhost(2));
    assert_eq!(claimant_names(&conflicting[0]), vec!["sink_1", "sink_2"]);
}

#[test]
fn conflicting_multi() {
    let components = vec![
        (key("sink_0"), vec![localhost(0)]),
        (key("sink_1"), vec![localhost(2), localhost(0)]),
        (key("sink_2"), vec![localhost(2)]),
    ];
    let mut conflicting = Resource::conflicts(&components);
    assert_eq!(conflicting.len(), 2);
    // Order the two entries by port for a stable comparison.
    conflicting.sort_by_key(|e| match &e.0 {
        Resource::Port(a, _) => a.port,
        _ => u16::MAX,
    });
    assert!(conflicting[0].0 == localhost(0));
    assert_eq!(claimant_names(&conflicting[0]), vec!["sink_0", "sink_1"]);
    assert!(conflicting[1].0 == localhost(2));
    assert_eq!(claimant_names(&conflicting[1]), vec!["sink_1", "sink_2"]);
}

#[test]
fn different_network_interface() {
    let components = vec![
        (key("sink_0"), vec![localhost(0)]),
        (
            key("sink_1"),
            vec![Resource::tcp(SocketAddress::new(
                IpAddress::V4(127, 0, 0, 2),
                0,
            ))],
        ),
    ];
    let conflicting = Resource::conflicts(&components);
    assert_eq!(conflicting.len(), 0);
}

#[test]
fn unspecified_network_interface() {
    let components = vec![
        (key("sink_0"), vec![localhost(0)]),
        (
            key("sink_1"),
            vec![Resource::tcp(SocketAddress::new(IpAddress::V4(0, 0, 0, 0), 0))],
        ),
    ];
    let conflicting = Resource::conflicts(&components);
    assert_eq!(conflicting.len(), 1);
    assert!(conflicting[0].0 == localhost(0));
    assert_eq!(claimant_names(&conflicting[0]), vec!["sink_0", "sink_1"]);
}

#[test]
fn different_protocol() {
    let components = vec![
        (
            key("sink_0"),
            vec![Resource::tcp(SocketAddress::new(
                IpAddress::V4(127, 0, 0, 1),
                0,
            ))],
        ),
        (
            key("sink_1"),
            vec![Resource::udp(SocketAddress::new(
                IpAddress::V4(127, 0, 0, 1),
                0,
            ))],
        ),
    ];
    let conflicting = Resource::conflicts(&components);
    assert_eq!(conflicting.len(), 0);
}

#[test]
fn resource_texts() {
    assert_eq!(localhost(8080).text(), "tcp 127.0.0.1:8080");
    assert_eq!(Resource::Fd(10).text(), "file descriptor: 10");
    assert_eq!(Resource::SystemFdOffset(2).text(), "systemd 3th socket");
    assert_eq!(
        Resource::DiskBuffer("buf".to_owned()).text(),
        "disk buffer \"buf\""
    );
    assert_eq!(
        Resource::udp(SocketAddress::new(IpAddress::V6(1), 53)).text(),
        "udp [0:0:0:0:0:0:0:1]:53"
    );
}

#[test]
fn wildcard_udp_does_not_conflict_with_tcp() {
    let components = vec![
        (key("sink_0"), vec![localhost(8080)]),
        (
            key("sink_1"),
            vec![Resource::udp(SocketAddress::new(IpAddress::V4(0, 0, 0, 0), 8080))],
        ),
    ];
    let conflicting = Resource::conflicts(&components);
    assert_eq!(conflicting.len(), 0);
}
