use verilog_hierarchy::Submodule;
use verilog_hierarchy::InstanceNode;
use verilog_hierarchy::collect::SyntaxEvent;
use verilog_hierarchy::collect::collect_definitions;
use verilog_hierarchy::defs::DefinitionMap;
use verilog_hierarchy::expand::build_design;
use verilog_hierarchy::expand::build_instance_node;
use verilog_hierarchy::expand::lists_bounded;
use verilog_hierarchy::roots::find_top_level_modules;

fn start(name: &str) -> SyntaxEvent {
    SyntaxEvent::ModuleStart { name: Some(name.to_string()) }
}

fn inst(instance: &str, ty: &str) -> SyntaxEvent {
    SyntaxEvent::Instantiation {
        submodule: Some(Submodule {
            instance_name: instance.to_string(),
            module_type: ty.to_string(),
        }),
    }
}

fn end() -> SyntaxEvent {
    SyntaxEvent::ModuleEnd
}

/// The events of a small processor design: a cpu built from an alu
/// (an adder and a multiplier), a control unit (a decoder) and a
/// register file.
fn example_design() -> DefinitionMap {
    let events = vec![
        start("cpu"),
        inst("alu_inst", "alu"),
        inst("ctrl_inst", "control_unit"),
        inst("regs_inst", "register_file"),
        end(),
        start("alu"),
        inst("add_inst", "adder"),
        inst("mul_inst", "multiplier"),
        end(),
        start("control_unit"),
        inst("dec_inst", "decoder"),
        end(),
        start("register_file"),
        end(),
    ];
    collect_definitions(&events)
}

#[test]
fn test_parse_example() {
    let defs = example_design();
    assert!(lists_bounded(&defs));
    let design = build_design(&defs);

    // Verify we found the top-level module
    assert_eq!(design.top_instances.len(), 1);
    assert_eq!(design.top_instances[0].module_type, "cpu");

    // Verify the children of the cpu module
    let cpu = &design.top_instances[0];
    assert_eq!(cpu.children.len(), 3);

    // Find the ALU child
    let alu = cpu.children.iter().find(|c| c.module_type == "alu").unwrap();
    assert_eq!(alu.children.len(), 2); // adder and multiplier

    // Find the control_unit child
    let control = cpu.children.iter().find(|c| c.module_type == "control_unit").unwrap();
    assert_eq!(control.children.len(), 1); // decoder

    // Find the register_file child
    let regs = cpu.children.iter().find(|c| c.module_type == "register_file").unwrap();
    assert_eq!(regs.children.len(), 0); // No children
}

#[test]
fn test_minimal_verilog() {
    let events = vec![start("top"), inst("instance1", "sub"), end(), start("sub"), end()];
    let defs = collect_definitions(&events);
    assert!(lists_bounded(&defs));
    let design = build_design(&defs);

    assert_eq!(design.top_instances.len(), 1);
    assert_eq!(design.top_instances[0].module_type, "top");
    assert_eq!(design.top_instances[0].children.len(), 1);
    assert_eq!(design.top_instances[0].children[0].module_type, "sub");
}

#[test]
fn minimal_design_complexities() {
    let events = vec![start("top"), inst("inst1", "sub"), end(), start("sub"), end()];
    let defs = collect_definitions(&events);
    let design = build_design(&defs);

    let top = &design.top_instances[0];
    assert_eq!(top.module_type, "top");
    assert_eq!(top.complexity, 2);
    assert_eq!(top.children[0].module_type, "sub");
    assert_eq!(top.children[0].instance_name, "inst1");
    assert_eq!(top.children[0].complexity, 1);
    assert_eq!(top.children[0].children.len(), 0);
}

fn check_complexities(node: &InstanceNode) {
    assert_eq!(node.complexity as usize, node.children.len() + 1);
    for child in &node.children {
        check_complexities(child);
    }
}

#[test]
fn complexity_is_child_count_plus_one_everywhere() {
    let defs = example_design();
    let design = build_design(&defs);
    assert_eq!(design.top_instances.len(), 1);
    for node in &design.top_instances {
        check_complexities(node);
    }
}

#[test]
fn roots_are_defined_and_never_instantiated() {
    // top1 uses mid; mid uses bottom, which is never defined; top2 is
    // defined and never used anywhere.
    let events = vec![
        start("top1"),
        inst("m", "mid"),
        end(),
        start("mid"),
        inst("b", "bottom"),
        end(),
        start("top2"),
        end(),
    ];
    let defs = collect_definitions(&events);
    let roots = find_top_level_modules(&defs);
    // mid is instantiated, so it is no root; bottom is not defined, so
    // it cannot be one either.
    assert_eq!(roots, vec!["top1".to_string(), "top2".to_string()]);
}

#[test]
fn reused_module_expands_independently_at_each_site() {
    // a uses b twice; b uses the undefined c twice.
    let events = vec![
        start("a"),
        inst("b1", "b"),
        inst("b2", "b"),
        end(),
        start("b"),
        inst("c1", "c"),
        inst("c2", "c"),
        end(),
    ];
    let defs = collect_definitions(&events);
    let node = build_instance_node(&defs, "a".to_string(), "a".to_string());
    assert_eq!(node.children.len(), 2);
    assert_eq!(node.complexity, 3);
    for mid in &node.children {
        assert_eq!(mid.module_type, "b");
        assert_eq!(mid.children.len(), 2);
        assert_eq!(mid.complexity, 3);
        for leaf in &mid.children {
            assert_eq!(leaf.module_type, "c");
            assert_eq!(leaf.children.len(), 0);
            assert_eq!(leaf.complexity, 1);
        }
    }
}

#[test]
fn merging_duplicate_definitions_concatenates_their_lists() {
    // Two files each define x, with different instantiation lists.
    let file1 = vec![start("x"), inst("p1", "p"), inst("q1", "q"), end()];
    let file2 = vec![start("x"), inst("r1", "r"), end()];
    let mut defs = collect_definitions(&file1);
    let defs2 = collect_definitions(&file2);
    defs.merge_from(defs2);

    assert_eq!(defs.entries.len(), 1);
    assert_eq!(defs.entries[0].module_type, "x");
    let names: Vec<&str> =
        defs.entries[0].submodules.iter().map(|s| s.module_type.as_str()).collect();
    assert_eq!(names, vec!["p", "q", "r"]);
    let instances: Vec<&str> =
        defs.entries[0].submodules.iter().map(|s| s.instance_name.as_str()).collect();
    assert_eq!(instances, vec!["p1", "q1", "r1"]);
}

#[test]
fn merging_distinct_keys_keeps_file_order() {
    let file1 = vec![start("m1"), end(), start("m2"), end()];
    let file2 = vec![start("m3"), end(), start("m1"), end()];
    let mut defs = collect_definitions(&file1);
    defs.merge_from(collect_definitions(&file2));
    let keys: Vec<&str> = defs.entries.iter().map(|e| e.module_type.as_str()).collect();
    assert_eq!(keys, vec!["m1", "m2", "m3"]);
}

#[test]
fn two_files_elaborate_into_one_design() {
    // File one defines top (using mid twice); file two defines mid and
    // adds a second instantiation list for top.
    let file1 = vec![start("top"), inst("m1", "mid"), inst("m2", "mid"), end()];
    let file2 = vec![
        start("mid"),
        inst("l1", "leafy"),
        end(),
        start("top"),
        inst("m3", "mid"),
        end(),
    ];
    let design = verilog_hierarchy::elaborate_design(&vec![file1, file2]).unwrap();

    assert_eq!(design.top_instances.len(), 1);
    let top = &design.top_instances[0];
    assert_eq!(top.module_type, "top");
    // The three mid instantiations of the two files, in file order.
    assert_eq!(top.children.len(), 3);
    assert_eq!(top.complexity, 4);
    let names: Vec<&str> = top.children.iter().map(|c| c.instance_name.as_str()).collect();
    assert_eq!(names, vec!["m1", "m2", "m3"]);
    for mid in &top.children {
        assert_eq!(mid.module_type, "mid");
        assert_eq!(mid.children.len(), 1);
        assert_eq!(mid.children[0].module_type, "leafy");
        assert_eq!(mid.children[0].children.len(), 0);
    }
}

#[test]
fn undefined_module_type_expands_to_a_leaf() {
    let events = vec![start("top"), inst("u1", "undefined_ip"), end()];
    let defs = collect_definitions(&events);
    let design = build_design(&defs);
    assert_eq!(design.top_instances.len(), 1);
    let top = &design.top_instances[0];
    assert_eq!(top.children.len(), 1);
    let leaf = &top.children[0];
    assert_eq!(leaf.module_type, "undefined_ip");
    assert_eq!(leaf.instance_name, "u1");
    assert_eq!(leaf.children.len(), 0);
    assert_eq!(leaf.complexity, 1);

    // A lookup of a type with no definition at all behaves the same.
    let node = build_instance_node(&defs, "n".to_string(), "nowhere".to_string());
    assert_eq!(node.children.len(), 0);
    assert_eq!(node.complexity, 1);
}

#[test]
fn self_instantiating_module_expands_to_a_bounded_tree() {
    let events = vec![start("a"), inst("a_inner", "a"), end()];
    let defs = collect_definitions(&events);
    // a instantiates itself, so it is no root; expansion must still be
    // finite: the inner a is cut off as a leaf.
    let roots = find_top_level_modules(&defs);
    assert_eq!(roots.len(), 0);
    let node = build_instance_node(&defs, "a".to_string(), "a".to_string());
    assert_eq!(node.children.len(), 1);
    assert_eq!(node.complexity, 2);
    assert_eq!(node.children[0].module_type, "a");
    assert_eq!(node.children[0].instance_name, "a_inner");
    assert_eq!(node.children[0].children.len(), 0);
    assert_eq!(node.children[0].complexity, 1);
}

#[test]
fn mutual_recursion_expands_to_a_bounded_tree() {
    let events = vec![
        start("a"),
        inst("to_b", "b"),
        end(),
        start("b"),
        inst("to_a", "a"),
        end(),
    ];
    let defs = collect_definitions(&events);
    let node = build_instance_node(&defs, "a".to_string(), "a".to_string());
    // a -> b -> a, and the second a is cut off.
    assert_eq!(node.children.len(), 1);
    let b = &node.children[0];
    assert_eq!(b.module_type, "b");
    assert_eq!(b.children.len(), 1);
    assert_eq!(b.children[0].module_type, "a");
    assert_eq!(b.children[0].children.len(), 0);
}

#[test]
fn malformed_events_are_dropped_silently() {
    let events = vec![
        // An instantiation outside any module body is dropped.
        inst("orphan", "t"),
        // A module end with nothing open is a no-op.
        end(),
        // A declaration whose name did not resolve creates no entry and
        // opens no scope, so the instantiation after it is dropped too.
        SyntaxEvent::ModuleStart { name: None },
        inst("lost", "t"),
        end(),
        // A resolvable module after all of that is collected normally;
        // an instantiation whose names did not resolve is skipped.
        start("m"),
        SyntaxEvent::Instantiation { submodule: None },
        inst("kept", "t"),
        end(),
    ];
    let defs = collect_definitions(&events);
    assert_eq!(defs.entries.len(), 1);
    assert_eq!(defs.entries[0].module_type, "m");
    assert_eq!(defs.entries[0].submodules.len(), 1);
    assert_eq!(defs.entries[0].submodules[0].instance_name, "kept");
}

#[test]
fn duplicate_definition_in_one_file_is_one_entry() {
    let events = vec![
        start("x"),
        inst("i1", "a"),
        end(),
        start("x"),
        inst("i2", "b"),
        end(),
    ];
    let defs = collect_definitions(&events);
    assert_eq!(defs.entries.len(), 1);
    assert_eq!(defs.entries[0].submodules.len(), 2);
    assert_eq!(defs.entries[0].submodules[0].module_type, "a");
    assert_eq!(defs.entries[0].submodules[1].module_type, "b");
}

#[test]
fn empty_input_yields_empty_design() {
    let events: Vec<SyntaxEvent> = vec![];
    let defs = collect_definitions(&events);
    assert_eq!(defs.entries.len(), 0);
    assert!(lists_bounded(&defs));
    let roots = find_top_level_modules(&defs);
    assert_eq!(roots.len(), 0);
    let design = build_design(&defs);
    assert_eq!(design.top_instances.len(), 0);
}

#[test]
fn nested_declarations_attach_to_the_innermost_module() {
    // An inner module declaration opens a new scope; instantiations
    // after it belong to it until its end, then the outer scope resumes.
    let events = vec![
        start("outer"),
        inst("o1", "t"),
        start("inner"),
        inst("i1", "u"),
        end(),
        inst("o2", "v"),
        end(),
    ];
    let defs = collect_definitions(&events);
    assert_eq!(defs.entries.len(), 2);
    assert_eq!(defs.entries[0].module_type, "outer");
    let outer: Vec<&str> =
        defs.entries[0].submodules.iter().map(|s| s.instance_name.as_str()).collect();
    assert_eq!(outer, vec!["o1", "o2"]);
    assert_eq!(defs.entries[1].module_type, "inner");
    assert_eq!(defs.entries[1].submodules.len(), 1);
    assert_eq!(defs.entries[1].submodules[0].instance_name, "i1");
}
