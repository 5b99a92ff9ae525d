//! The line of progress that a unit of work is shown on.

use cactup::progress::{
    bytes, child_role, current_action, role_of, Board, Claim, Handle, Layout, Role, MAX_NAME_COLUMN,
};

/// What is drawn of a line.
#[derive(Debug, Clone, PartialEq)]
struct Drawn {
    name: String,
    bar: Option<(usize, Option<usize>)>,
}

/// A line with what is drawn of it, and the counts of its handles.
struct Line {
    board: Board,
    layout: Layout,
    prefix: &'static str,
    root_draws: bool,
    drawn: Drawn,
}

/// A handle of a line.
struct Reporter {
    handle: Handle,
    depth: u8,
    count: usize,
}

impl Line {
    fn over(prefix: &'static str, width: usize) -> (Line, Reporter) {
        let layout = Layout { name: width, colours: false };
        let drawn = Drawn { name: layout.label(prefix, ""), bar: None };
        let line = Line { board: Board::new(), layout, prefix, root_draws: false, drawn };
        (line, Reporter { handle: Handle::Root, depth: 0, count: 0 })
    }

    fn show(&mut self, name: Option<String>) {
        if let Some(phase) = name {
            self.drawn.name = self.layout.label(self.prefix, &phase);
        }
    }

    fn set_name(&mut self, r: &Reporter, name: &str) {
        let shown = self.board.rename(r.handle, name);
        self.show(shown);
    }

    fn child(&mut self, parent: &Reporter, name: &str) -> Reporter {
        let (depth, role, fixed) = child_role(parent.depth, name);
        let handle = if role == Role::Mute {
            Handle::Muted
        } else {
            let (token, shown) = self.board.add(fixed.unwrap_or(name), role == Role::Drive, fixed.is_none());
            self.show(shown);
            Handle::Phase(token)
        };
        Reporter { handle, depth, count: 0 }
    }

    fn init(&mut self, r: &Reporter, max: Option<usize>) {
        let draws = match r.handle {
            Handle::Phase(token) => self.board.announce(token, (max, None)),
            Handle::Root => self.root_draws,
            Handle::Muted => false,
        };
        if draws {
            self.drawn.bar = Some((0, max));
        }
    }

    fn set(&mut self, r: &mut Reporter, count: usize) {
        r.count = count;
        let claim = match r.handle {
            Handle::Phase(token) => self.board.holds_bar(token),
            Handle::Root if self.board.root_fills(self.root_draws) => Claim::Drawing,
            _ => Claim::No,
        };
        match claim {
            Claim::JustTaken(shape, name) => {
                self.show(name);
                self.drawn.bar = Some((count, shape.0));
            }
            Claim::Drawing => {
                let max = self.drawn.bar.and_then(|bar| bar.1);
                self.drawn.bar = Some((count, max));
            }
            Claim::No => {}
        }
    }

    fn end(&mut self, r: Reporter) {
        if let Handle::Phase(token) = r.handle {
            let (cleared, name) = self.board.remove(token);
            if cleared {
                self.drawn.bar = None;
            }
            self.show(name);
        }
    }

    fn drawn(&self) -> (&str, Option<(usize, Option<usize>)>) {
        (&self.drawn.name, self.drawn.bar)
    }
}

#[test]
fn a_gix_subtree_collapses_onto_one_item() {
    let (mut line, root) = Line::over("cactusbase", 10);
    line.set_name(&root, "cloning");
    assert_eq!(line.drawn(), ("cactusbase  cloning", None));
    line.set_name(&root, "negotiate (round 1)");
    let mut remote = line.child(&root, "remote");
    line.set_name(&remote, "Counting objects");
    line.init(&remote, Some(100));
    line.set(&mut remote, 40);
    assert_eq!(line.drawn(), ("cactusbase  Counting objects", Some((40, Some(100)))));
}

#[test]
fn the_newest_phase_owns_the_line_and_stale_ones_cannot_write() {
    let (mut line, root) = Line::over("cactusbase", 10);
    let mut remote = line.child(&root, "remote");
    line.init(&remote, Some(100));
    line.set(&mut remote, 40);
    let mut pack = line.child(&root, "read pack");
    line.init(&pack, Some(2048));
    line.set(&mut pack, 512);
    line.set(&mut remote, 99);
    assert_eq!(line.drawn(), ("cactusbase  receiving pack", Some((512, Some(2048)))));

    line.set_name(&root, "receiving pack");
    line.end(pack);
    assert_eq!(line.drawn(), ("cactusbase  receiving pack", None));
    line.set(&mut remote, 100);
    assert_eq!(line.drawn(), ("cactusbase  receiving pack", None));
}

#[test]
fn a_bounded_phase_is_not_displaced_by_its_unbounded_twin() {
    let (mut line, root) = Line::over("cactusbase", 10);
    let mut files = line.child(&root, "checkout");
    let mut written = line.child(&root, "writing");
    line.init(&files, Some(1200));
    line.init(&written, None);
    line.set(&mut files, 300);
    line.set(&mut written, 4096);
    assert_eq!(line.drawn(), ("cactusbase  checking out", Some((300, Some(1200)))));
}

#[test]
fn a_second_ask_for_the_counter_does_not_reset_the_bar() {
    let (mut line, root) = Line::over("cactusbase", 10);
    let files = line.child(&root, "checkout");
    line.init(&files, Some(1200));
    let Handle::Phase(token) = files.handle else { panic!("the checkout is a phase") };
    assert!(matches!(line.board.holds_bar(token), Claim::JustTaken((Some(1200), None), _)));
    // The count is seeded only when the bar is taken over.
    assert!(matches!(line.board.holds_bar(token), Claim::Drawing));
}

#[test]
fn per_thread_workers_are_muted() {
    let (mut line, root) = Line::over("cactusbase", 10);
    let index = line.child(&root, "create index file");
    let mut resolving = line.child(&index, "Resolving");
    line.init(&resolving, Some(9000));
    line.set(&mut resolving, 4500);
    assert_eq!(line.drawn(), ("cactusbase  indexing pack", None));
    assert_eq!(resolving.handle, Handle::Muted);
}

/// What goes to the history is under the bare name, of one width on every line.
#[test]
fn gix_chatter_is_dropped_but_failures_and_our_own_lines_survive() {
    let (mut line, root) = Line::over("cactusbase", 10);
    let mut pack = line.child(&root, "read pack");
    line.init(&pack, Some(2048));
    line.set(&mut pack, 2048);
    assert_eq!(line.layout.origin(line.prefix), " cactusbase ");
    // The label goes straight back on.
    let shown = line.board.relabel();
    line.show(shown);
    assert_eq!(line.drawn(), ("cactusbase  receiving pack", Some((2048, Some(2048)))));
}

#[test]
fn a_counting_line_fills_the_bar_from_its_own_handle() {
    let (mut line, mut root) = Line::over("flesh.tar.gz", 12);
    line.root_draws = true;
    line.set_name(&root, "downloading");
    line.init(&root, Some(4096));
    line.set(&mut root, 1024);
    assert_eq!(line.drawn(), ("flesh.tar.gz  downloading", Some((1024, Some(4096)))));
    assert_eq!(root.count, 1024);
}

#[test]
fn a_gix_line_draws_no_bar_of_its_own() {
    let (mut line, mut root) = Line::over("cactusbase", 10);
    line.set_name(&root, "cloning");
    line.init(&root, Some(4));
    line.set(&mut root, 1);
    assert_eq!(line.drawn(), ("cactusbase  cloning", None));
}

#[test]
fn the_bar_belongs_to_whichever_phase_is_moving() {
    let (mut line, root) = Line::over("cactusbase", 10);
    let mut remote = line.child(&root, "remote");
    let mut pack = line.child(&root, "read pack");
    line.init(&remote, Some(900));
    line.init(&pack, None);
    assert_eq!(line.drawn(), ("cactusbase  receiving pack", None));

    line.set_name(&remote, "Compressing objects");
    line.set(&mut remote, 300);
    assert_eq!(line.drawn(), ("cactusbase  Compressing objects", Some((300, Some(900)))));

    line.set(&mut pack, 4096);
    line.set(&mut remote, 900);
    assert_eq!(line.drawn(), ("cactusbase  receiving pack", Some((4096, None))));
}

#[test]
fn a_streaming_phase_keeps_the_bar_and_hands_over_only_the_label() {
    let (mut line, root) = Line::over("cactusbase", 10);
    line.set_name(&root, "receiving pack");
    let mut pack = line.child(&root, "read pack");
    line.init(&pack, None);
    line.set(&mut pack, 4096);
    let index = line.child(&root, "create index file");
    line.set(&mut pack, 8192);
    assert_eq!(line.drawn(), ("cactusbase  receiving pack", Some((8192, None))));

    line.end(pack);
    assert_eq!(line.drawn(), ("cactusbase  indexing pack", None));
    line.end(index);
    assert_eq!(line.drawn(), ("cactusbase  indexing pack", None));
}

fn names(list: &[&str]) -> Vec<String> {
    list.iter().map(|s| s.to_string()).collect()
}

#[test]
fn the_name_column_is_the_same_width_on_every_line() {
    let layout = Layout { name: Layout::for_names(&names(&["uv", "gitoxide"]), false).name, colours: false };
    let uv = layout.label("uv", "receiving pack");
    let gitoxide = layout.label("gitoxide", "receiving pack");
    assert_eq!(uv, "uv        receiving pack");
    assert_eq!(gitoxide, "gitoxide  receiving pack");
    assert_eq!(uv.find("receiving"), gitoxide.find("receiving"));

    // A name wider than the column pushes only its own phase to the right.
    let wide = "a-component-name-longer-than-the-column";
    assert!(wide.chars().count() > MAX_NAME_COLUMN);
    let layout = Layout { name: Layout::for_names(&names(&["uv", wide]), false).name, colours: false };
    assert_eq!(layout.name, MAX_NAME_COLUMN);
    assert_eq!(layout.label(wide, "checking out"), format!("{wide}  checking out"));
}

#[test]
fn the_phase_is_quieter_than_the_name() {
    let coloured = Layout { name: 8, colours: true };
    assert_eq!(coloured.label("uv", "receiving pack"), "uv      \x1b[m  receiving pack");
    assert_eq!(coloured.headline("uv"), "uv      \x1b[m");
    let plain = Layout { name: 8, colours: false };
    assert_eq!(plain.label("uv", "receiving pack"), "uv        receiving pack");
    assert_eq!(plain.headline("uv"), "uv      ");
}

#[test]
fn byte_counts_read_as_sizes() {
    assert_eq!(bytes(0), "0 B");
    assert_eq!(bytes(1023), "1023 B");
    assert_eq!(bytes(1024), "1.0 KiB");
    assert_eq!(bytes(1024 * 1024 * 3 / 2), "1.5 MiB");
    assert_eq!(bytes(5 * 1024 * 1024 * 1024), "5.0 GiB");
}

/// Sizes are rounded as the nearest representable fraction is.
#[test]
fn sizes_are_rounded_as_fractions_are() {
    fn by_fraction(n: usize) -> String {
        const UNITS: [&str; 4] = ["KiB", "MiB", "GiB", "TiB"];
        if n < 1024 {
            return format!("{n} B");
        }
        let mut value = n as f64 / 1024.0;
        let mut unit = UNITS[0];
        for next in &UNITS[1..] {
            if value < 1024.0 {
                break;
            }
            value /= 1024.0;
            unit = next;
        }
        format!("{value:.1} {unit}")
    }
    let mut n: usize = 1000;
    let mut step: usize = 1;
    while n < usize::MAX / 2 {
        for around in [n - 1, n, n + 1, n + 256, n + 51] {
            assert_eq!(bytes(around), by_fraction(around), "{around}");
        }
        n = n + n / 7 + step;
        step = (step * 31) % 1009 + 1;
    }
    for n in [1075, 1076, 1077, 1126, 1280, 1792, 1_048_575, 1_048_576, usize::MAX, usize::MAX - 1, 1 << 53, (1 << 53) + 1]
    {
        assert_eq!(bytes(n), by_fraction(n), "{n}");
    }
}

#[test]
fn phases_are_named_for_people() {
    assert_eq!(role_of("read pack"), (Role::Drive, Some("receiving pack")));
    assert_eq!(role_of("remote"), (Role::Drive, None));
    assert_eq!(role_of("create index file"), (Role::Label, Some("indexing pack")));
    assert_eq!(child_role(1, "read pack").1, Role::Mute);
    // Only the action that runs is told.
    assert_eq!(current_action("Counting objects: Compressing objects"), "Compressing objects");
    assert_eq!(current_action("alone"), "alone");
}
