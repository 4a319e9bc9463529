use jo::lineage::pids_with_parent;
use jo::number::Single;
use jo::process::{ProcessData, ProcessSample, ProcessTree, SkipPlaceholderRoot};
use jo::state::{ProcessView, State};
use jo::system::{Measured, SystemInformation};
use jo::table::TableState;
use jo::transition::Transition;
use jo::tree::{ProcessNode, TreePrefix};
use std::cmp::Ordering;
use std::collections::HashMap;

fn number(value: f32) -> Single {
    Single::from_bits(value.to_bits())
}

fn sample(pid: u32, name: &str, cpu: f32) -> ProcessSample {
    ProcessSample {
        pid,
        exe: None,
        name: name.to_string(),
        user: "alice".to_string(),
        cpu_usage: number(cpu),
        memory_usage: 0,
        memory_percent: number(0.0),
    }
}

fn measured(pid: u32, parent: Option<u32>, cpu: f32) -> Measured {
    Measured { parent, process: sample(pid, "p", cpu) }
}

fn system(processes: Vec<Measured>) -> SystemInformation {
    match SystemInformation::gather(processes, number(0.5), vec![number(0.25)]) {
        Ok(info) => info,
        Err(err) => panic!("{:?}", err),
    }
}

#[test]
fn the_path_of_the_program_stands_for_the_name() {
    let mut one = sample(7, "sh", 1.5);
    let plain = ProcessData::from_process(sample(7, "sh", 1.5));
    assert_eq!(plain.name, "sh");
    assert_eq!(plain.pid, 7);
    assert_eq!(plain.cpu_usage, number(1.5));
    one.exe = Some("/bin/sh".to_string());
    let found = ProcessData::from_process(one);
    assert_eq!(found.name, "/bin/sh");
    assert_eq!(found.user, "alice");
    assert_eq!(found.clone().name, "/bin/sh");
}

#[test]
fn a_tree_grows_below_the_processes_without_a_parent() {
    let mut parents: HashMap<u32, Option<u32>> = HashMap::new();
    parents.insert(1, None);
    parents.insert(2, Some(1));
    parents.insert(3, Some(2));
    parents.insert(9, Some(8));
    parents.insert(5, Some(6));
    parents.insert(6, Some(5));
    let tree = match ProcessTree::try_new(&parents) {
        Ok(tree) => tree,
        Err(err) => panic!("{:?}", err),
    };
    let rows = tree.rows();
    assert_eq!(
        rows,
        vec![
            (2, TreePrefix::FirstChild, 1),
            (3, TreePrefix::LastChild, 2),
            (4, TreePrefix::LastChild, 3),
        ]
    );
    assert_eq!(tree.top_processes(), vec![1]);
}

#[test]
fn an_empty_tree_has_no_lines() {
    assert!(ProcessTree::new().rows().is_empty());
    assert!(ProcessTree::default().top_processes().is_empty());
    let nobody: HashMap<u32, Option<u32>> = HashMap::new();
    match ProcessTree::try_new(&nobody) {
        Ok(tree) => assert!(tree.rows().is_empty()),
        Err(err) => panic!("{:?}", err),
    }
}

#[test]
fn the_children_of_a_process() {
    let mut parents: HashMap<u32, Option<u32>> = HashMap::new();
    parents.insert(1, None);
    parents.insert(2, Some(1));
    parents.insert(3, Some(1));
    let mut kids = pids_with_parent(&parents, Some(1));
    kids.sort();
    assert_eq!(kids, vec![2, 3]);
    assert_eq!(pids_with_parent(&parents, None), vec![1]);
    assert!(pids_with_parent(&parents, Some(3)).is_empty());
}

#[test]
fn a_deep_sort_sorts_every_level() {
    let mut parents: HashMap<u32, Option<u32>> = HashMap::new();
    for pid in 1..4 {
        parents.insert(pid, None);
    }
    for pid in 10..14 {
        parents.insert(pid, Some(2));
    }
    let mut tree = match ProcessTree::try_new(&parents) {
        Ok(tree) => tree,
        Err(err) => panic!("{:?}", err),
    };
    tree.deep_sort_by(|a: &ProcessNode, b: &ProcessNode| match (a, b) {
        (ProcessNode::Process(a), ProcessNode::Process(b)) => b.cmp(a),
        _ => Ordering::Equal,
    });
    let rows = tree.rows();
    let pids: Vec<u32> = rows.iter().map(|row| row.2).collect();
    assert_eq!(pids, vec![3, 2, 13, 12, 11, 10, 1]);
    let prefixes: Vec<TreePrefix> = rows.iter().map(|row| row.1).collect();
    assert_eq!(prefixes[0], TreePrefix::FirstChild);
    assert_eq!(prefixes[2], TreePrefix::MiddleChild);
    assert_eq!(prefixes[5], TreePrefix::LastChild);
}

#[test]
fn a_deep_sort_compares_siblings_alone() {
    let mut parents: HashMap<u32, Option<u32>> = HashMap::new();
    for pid in 1..8 {
        parents.insert(pid, None);
        for child in 1..6 {
            parents.insert(pid * 10 + child, Some(pid));
        }
    }
    let mut tree = match ProcessTree::try_new(&parents) {
        Ok(tree) => tree,
        Err(err) => panic!("{:?}", err),
    };
    tree.deep_sort_by(|a: &ProcessNode, b: &ProcessNode| match (a, b) {
        (ProcessNode::Process(a), ProcessNode::Process(b)) => {
            assert_eq!(a / 10, b / 10);
            a.cmp(b)
        }
        _ => panic!("the placeholder"),
    });
    let pids: Vec<u32> = tree.rows().iter().map(|row| row.2).collect();
    assert_eq!(pids[..8], [1, 11, 12, 13, 14, 15, 2, 21]);
}

#[test]
fn nodes_without_the_placeholder() {
    let nodes = vec![ProcessNode::Process(3), ProcessNode::Root, ProcessNode::Process(1)];
    assert!(nodes[1].is_root() && !nodes[1].is_process());
    assert!(nodes[0].is_process() && !nodes[0].is_root());
    assert_eq!(nodes.skip_placeholder_root(), vec![3, 1]);
}

#[test]
fn measurements_are_filed_by_number() {
    let info = system(vec![measured(1, None, 1.0), measured(2, Some(1), 2.0), measured(3, Some(9), 3.0)]);
    assert_eq!(info.process_data.len(), 3);
    assert_eq!(info.process_data[&2].cpu_usage, number(2.0));
    assert_eq!(info.process_tree.rows().len(), 2);
    assert_eq!(info.mem_usage, number(0.5));
    assert_eq!(info.cpu_usage, vec![number(0.25)]);
    let empty = SystemInformation::default();
    assert!(empty.process_data.is_empty() && empty.cpu_usage.is_empty());
    assert_eq!(empty.mem_usage, number(0.0));
}

#[test]
fn the_flat_table_is_sorted_by_usage() {
    let info = system(vec![
        measured(1, None, 0.5),
        measured(2, Some(1), 7.0),
        measured(3, Some(1), -1.0),
        measured(4, Some(2), f32::NAN),
        measured(5, Some(2), 0.0),
    ]);
    let st = Transition::UpdateSysInfo(info).transition(State::default());
    let pids: Vec<u32> = st.process_rows.as_ref().expect("rows").iter().map(|row| row.2).collect();
    assert_eq!(pids, vec![4, 2, 1, 5, 3]);
    let st = st.prepare();
    let again: Vec<u32> = st.process_rows.as_ref().expect("rows").iter().map(|row| row.2).collect();
    assert_eq!(again, pids);
}

#[test]
fn the_tree_view_sorts_siblings_by_usage() {
    let mut st = State::default();
    st.process_view = ProcessView::Tree;
    let info = system(vec![
        measured(1, None, 0.5),
        measured(2, Some(1), 1.0),
        measured(3, Some(1), 3.0),
        measured(4, Some(2), 9.0),
        measured(5, None, 0.75),
    ]);
    let st = Transition::UpdateSysInfo(info).transition(st);
    let rows = st.process_rows.as_ref().expect("rows").clone();
    assert_eq!(
        rows,
        vec![
            (2, TreePrefix::FirstChild, 5),
            (2, TreePrefix::FirstChild, 1),
            (3, TreePrefix::MiddleChild, 3),
            (3, TreePrefix::LastChild, 2),
            (4, TreePrefix::LastChild, 4),
        ]
    );
    let st = st.prepare();
    assert_eq!(st.process_rows.as_ref().expect("rows"), &rows);
}

#[test]
fn lines_show_the_number_that_was_measured() {
    let mut info = system(vec![measured(1, None, 1.0)]);
    let mut other = ProcessData::from_process(sample(1, "p", 1.0));
    other.pid = 77;
    info.process_data.insert(1, other);
    let st = Transition::UpdateSysInfo(info).transition(State::default());
    assert_eq!(st.process_rows.expect("rows")[0].2, 77);
}

#[test]
fn selecting_lines() {
    let mut table = TableState::default();
    assert_eq!(table.selected(), None);
    table.select_next();
    assert_eq!(table.selected(), Some(0));
    table.select_next();
    table.select_next();
    assert_eq!(table.selected(), Some(2));
    table.select_previous();
    assert_eq!(table.selected(), Some(1));
    table.select_first();
    assert_eq!(table.selected(), Some(0));
    table.select_previous();
    assert_eq!(table.selected(), Some(0));
    let mut none = TableState { offset: 5, selected: None };
    none.select_previous();
    assert_eq!(none, TableState { offset: 5, selected: Some(usize::MAX) });
    none.select_next();
    assert_eq!(none.selected(), Some(usize::MAX));
    assert_eq!(none.with_selected(None), TableState { offset: 5, selected: None });
}

#[test]
fn numbers_are_ordered_by_their_patterns() {
    let values = [f32::NEG_INFINITY, -2.0, -0.0, 0.0, 0.5, 3.0, f32::INFINITY];
    for a in values {
        for b in values {
            assert_eq!(number(a).total_order(number(b)), a.total_cmp(&b));
            assert_eq!(number(a).less_than(number(b)), a < b);
        }
        assert!(!number(f32::NAN).less_than(number(a)) && !number(a).less_than(number(f32::NAN)));
        assert_eq!(number(a).total_order(number(f32::NAN)), a.total_cmp(&f32::NAN));
    }
    assert!(number(f32::NAN).is_nan() && !number(f32::INFINITY).is_nan());
}

#[test]
fn equal_usage_keeps_the_order_of_the_tree() {
    let info = system(vec![
        measured(1, None, 1.0),
        measured(2, Some(1), 1.0),
        measured(3, Some(2), 1.0),
        measured(4, Some(3), 2.0),
    ]);
    let st = Transition::UpdateSysInfo(info).transition(State::default());
    let pids: Vec<u32> = st.process_rows.expect("rows").iter().map(|row| row.2).collect();
    assert_eq!(pids, vec![4, 1, 2, 3]);
}
