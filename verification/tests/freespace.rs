//! How much room is left where a run keeps its files.
use onepipeline::freespace::{
    byte_count, lines, lines_of, Filesystem, Holding, Measured, Root, Walk, RUNS_ROOT, WORKSPACES,
};

fn read(identity: &str, is_dir: bool) -> Measured {
    Measured::Read {
        identity: identity.into(),
        free: 20 * 1024 * 1024 * 1024,
        total: 80 * 1024 * 1024 * 1024,
        is_dir,
    }
}

fn measure(path: &str, host: &dyn Fn(&str) -> Measured) -> Result<Filesystem, String> {
    let mut holding = Holding::new(path);
    loop {
        let at = holding.at.clone();
        let parent = at.rfind('/').map(|slash| if slash == 0 { "/" } else { &at[..slash] });
        match holding.holding(&host(&at), parent) {
            Walk::Found(found) => return Ok(found),
            Walk::Refused(why) => return Err(why),
            Walk::Up => {}
        }
    }
}

fn root(label: &str, path: &str, host: &dyn Fn(&str) -> Measured) -> Root {
    Root {
        label: label.into(),
        path: path.into(),
        measured: measure(path, host),
    }
}

#[test]
fn one_filesystem_is_one_line_and_a_missing_root_is_measured_at_its_ancestor() {
    let host = |path: &str| match path {
        "/tmp/root" => read("1", true),
        _ => Measured::Missing("no such directory".into()),
    };
    let runs = "/tmp/root/runs";
    let workspaces = "/tmp/root/not-there-yet/workspaces";
    let rendered = lines_of(&vec![
        root(RUNS_ROOT, runs, &host),
        root(WORKSPACES, workspaces, &host),
    ]);

    assert_eq!(rendered.lines().count(), 1, "{rendered}");
    assert!(rendered.starts_with("  free space: "), "{rendered}");
    assert!(rendered.contains(" GiB of "), "{rendered}");
    assert!(
        rendered.contains("% free) on the filesystem holding the runs root"),
        "{rendered}"
    );
    assert!(
        rendered.contains(&format!(
            "{runs} (measured at /tmp/root, the nearest directory that exists)"
        )),
        "{rendered}"
    );
    assert!(
        rendered.contains(&format!(
            "and the lifecycle workspaces under {workspaces} (measured at /tmp/root, the nearest \
             directory that exists)"
        )),
        "{rendered}"
    );
    assert!(rendered.ends_with('\n'), "{rendered}");
}

#[test]
fn a_root_that_cannot_be_read_says_so_and_the_other_is_still_measured() {
    let host = |path: &str| match path {
        "/tmp/root" => read("1", true),
        "/tmp/root/a-file/runs" => Measured::Failed("not a directory".into()),
        _ => read("1", false),
    };
    let under = "/tmp/root/a-file/runs";
    let rendered = lines_of(&vec![
        root(RUNS_ROOT, under, &host),
        root(WORKSPACES, "/tmp/root", &host),
    ]);

    let lines: Vec<&str> = rendered.lines().collect();
    assert_eq!(lines.len(), 2, "{rendered}");
    assert!(
        lines[0].starts_with(&format!(
            "  free space: could not be read for the runs root {under}"
        )),
        "{rendered}"
    );
    assert!(
        lines[0].ends_with("so what is free there is unknown"),
        "{rendered}"
    );
    assert!(
        lines[1].contains("on the filesystem holding the lifecycle workspaces under"),
        "{rendered}"
    );
}

#[test]
fn the_share_is_integer_and_a_full_filesystem_reads_zero() {
    let full = Filesystem {
        identity: "1".into(),
        measured_at: None,
        free: 1024 * 1024,
        total: 197 * 1024 * 1024 * 1024,
    };
    assert_eq!(full.reading(), "0.0 GiB of 197.0 GiB (0% free)");
    let empty = Filesystem {
        identity: "1".into(),
        measured_at: None,
        free: 0,
        total: 0,
    };
    assert_eq!(empty.reading(), "0.0 GiB of 0.0 GiB (0% free)");
}

#[test]
fn a_reading_is_what_a_float_would_print() {
    for (free, total) in [
        (53_687_091, 1_073_741_824),
        (161_061_273, 10_737_418_240),
        (7_516_192_768, 80_000_000_000),
        (u64::MAX, u64::MAX),
        (268_435_456, 805_306_368),
    ] {
        let filesystem = Filesystem {
            identity: "1".into(),
            measured_at: None,
            free,
            total,
        };
        let gib = |bytes: u64| bytes as f64 / 1_073_741_824.0;
        assert_eq!(
            filesystem.reading(),
            format!(
                "{:.1} GiB of {:.1} GiB ({}% free)",
                gib(free),
                gib(total),
                u128::from(free) * 100 / u128::from(total)
            )
        );
    }
}

#[test]
fn a_reading_past_what_a_float_holds_exactly_is_still_what_it_would_print() {
    // Around the values a tenth is rounded at, where the nearest number of double
    // precision can lie on the other side.
    let mut told_apart: usize = 0;
    for shift in 0..64_u64 {
        let near = (1_u64 << 53) + shift * 286_331_153_123_457_000;
        let tenth = (near as u128 * 20 / (1 << 30)) | 1;
        let boundary = (tenth << 30) / 20;
        for step in 0..8_u128 {
            let free = u64::try_from(boundary + step * 61 - 244).unwrap_or(u64::MAX);
            let filesystem = Filesystem {
                identity: "1".into(),
                measured_at: None,
                free,
                total: u64::MAX,
            };
            let printed = format!("{:.1} GiB", free as f64 / (1_u64 << 30) as f64);
            assert!(
                filesystem.reading().starts_with(&format!("{printed} of ")),
                "{free}: {} is not {printed}",
                filesystem.reading()
            );
            let exact = (free as u128 * 20 + (1 << 30)) / (2 << 30);
            if printed != format!("{}.{} GiB", exact / 10, exact % 10) {
                told_apart += 1;
            }
        }
    }
    assert!(told_apart > 0, "no value was rounded otherwise");
}

#[test]
fn two_filesystems_are_two_lines_and_an_unresolved_root_is_one_more() {
    let host = |path: &str| read(path, true);
    let asked = vec![root(RUNS_ROOT, "/a", &host), root(WORKSPACES, "/b", &host)];
    assert_eq!(lines_of(&asked).lines().count(), 2);
    let rendered = lines(&vec![root(RUNS_ROOT, "/a", &host)], Some("no home"));
    assert_eq!(rendered.lines().count(), 2, "{rendered}");
    assert!(rendered.contains("could not resolve its state root: no home"), "{rendered}");
    assert_eq!(lines(&asked, None), lines_of(&asked));
}

#[test]
fn a_walk_that_meets_a_file_or_runs_out_of_parents_is_refused() {
    let file = |path: &str| match path {
        "/a/file" => read("1", false),
        _ => Measured::Missing("gone".into()),
    };
    assert_eq!(
        measure("/a/file/runs", &file),
        Err("/a/file: not a directory".to_string())
    );
    let nothing = |_: &str| Measured::Missing("gone".into());
    let mut relative = Holding::new("runs");
    assert_eq!(relative.holding(&nothing("runs"), Some("")), Walk::Up);
    assert_eq!(relative.at, ".");
    assert_eq!(
        relative.holding(&nothing("."), None),
        Walk::Refused("runs: gone".to_string())
    );
    assert_eq!(byte_count(3, 4096), 12_288);
    assert_eq!(byte_count(u64::MAX, 2), u64::MAX);
}
