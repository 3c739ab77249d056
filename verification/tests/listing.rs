use libfalcon::handle::UuidVal;
use libfalcon::info::{extra_mount_cells, format_dec, node_row};
use libfalcon::topology::{Mount, Node};

fn mounted_node() -> Node {
    Node {
        name: "router".to_string(),
        image: "helios".to_string(),
        cores: 4,
        memory: 2048,
        radix: 12,
        id: UuidVal { hi: 0, lo: 0x2a },
        mounts: vec![
            Mount { source: "/a".to_string(), destination: "/mnt/a".to_string() },
            Mount { source: "/b".to_string(), destination: "/mnt/b".to_string() },
            Mount { source: "/c".to_string(), destination: "/mnt/c".to_string() },
        ],
    }
}

#[test]
fn decimal_text_is_minimal() {
    assert_eq!(format_dec(0), "0");
    assert_eq!(format_dec(7), "7");
    assert_eq!(format_dec(1234), "1234");
    assert_eq!(format_dec(u64::MAX), "18446744073709551615");
}

#[test]
fn node_row_lists_the_five_cells() {
    let n = mounted_node();
    let row = node_row(&n);
    assert_eq!(
        row,
        vec![
            "router".to_string(),
            "helios".to_string(),
            "12".to_string(),
            "/a -> /mnt/a".to_string(),
            "00000000-0000-0000-0000-00000000002a".to_string(),
        ]
    );
}

#[test]
fn extra_mounts_become_continuation_cells() {
    let n = mounted_node();
    let extra = extra_mount_cells(&n);
    assert_eq!(extra, vec!["/b -> /mnt/b".to_string(), "/c -> /mnt/c".to_string()]);
    let bare = Node { mounts: vec![], ..mounted_node() };
    assert_eq!(extra_mount_cells(&bare).len(), 0);
    let row = node_row(&bare);
    assert_eq!(row[3], "");
}
