use ddc_backlight::path::final_component_of;
use ddc_backlight::resolver::{
    after_adapters, after_entries, begin, entry_device, find_output_dir, is_output_dir,
    names_device, pick_device, resolve, DirEntry, OutputDir, ResolveError, Step,
    ADAPTER_CLASS_DIR, ADAPTER_PREFIX, BUS_PREFIX, DDC_LINK,
};

fn names(list: &[&str]) -> Vec<String> {
    list.iter().map(|name| name.to_string()).collect()
}

fn plain(name: &str) -> DirEntry {
    DirEntry { name: name.to_string(), link_target: None }
}

fn link(name: &str, target: &str) -> DirEntry {
    DirEntry { name: name.to_string(), link_target: Some(target.to_string()) }
}

fn dir(name: &str, entries: Vec<DirEntry>) -> OutputDir {
    OutputDir { name: name.to_string(), entries }
}

#[test]
fn names_of_the_device_tree() {
    assert_eq!(ADAPTER_CLASS_DIR, "/sys/class/drm");
    assert_eq!(ADAPTER_PREFIX, "card");
    assert_eq!(BUS_PREFIX, "i2c-");
    assert_eq!(DDC_LINK, "ddc");
}

#[test]
fn output_name_that_is_a_device() {
    assert!(names_device("i2c-4"));
    assert!(names_device("i2c-"));
    assert!(names_device("i2c-anything"));
    assert!(!names_device("i2c"));
    assert!(!names_device("DP-1"));
    assert!(!names_device("I2C-4"));
    assert!(!names_device(" i2c-4"));
    assert!(!names_device(""));
}

#[test]
fn entry_of_the_output() {
    assert!(is_output_dir("card0-DP-1", "DP-1"));
    assert!(is_output_dir("card1-HDMI-A-1", "HDMI-A-1"));
    assert!(is_output_dir("card-DP-1", "DP-1"));
    assert!(is_output_dir("card0-", ""));
}

#[test]
fn boundary_before_the_output_name() {
    assert!(!is_output_dir("card0-DP-10", "DP-1"));
    assert!(!is_output_dir("card0-eDP-1", "DP-1"));
    assert!(!is_output_dir("card0-HDMI-A-1", "A-1x"));
    assert!(is_output_dir("card0-HDMI-A-1", "A-1"));
    assert!(!is_output_dir("card0-HDMI-A-1", "MI-A-1"));
    assert!(!is_output_dir("card0-DP-1", "card0-DP-1"));
    assert!(!is_output_dir("card0-DP-1", "-DP-1"));
    assert!(!is_output_dir("card0DP-1", "DP-1"));
}

#[test]
fn entry_without_the_adapter_prefix() {
    assert!(!is_output_dir("renderD128-DP-1", "DP-1"));
    assert!(!is_output_dir("Card0-DP-1", "DP-1"));
    assert!(!is_output_dir("car-DP-1", "DP-1"));
    assert!(!is_output_dir("-DP-1", "DP-1"));
    assert!(!is_output_dir("version", "DP-1"));
    assert!(!is_output_dir("card0", "DP-1"));
    assert!(!is_output_dir("", "DP-1"));
}

#[test]
fn entry_names_with_other_scripts() {
    assert!(is_output_dir("card0-é-DP-1", "DP-1"));
    assert!(!is_output_dir("card0éDP-1", "DP-1"));
    assert!(is_output_dir("card0-ü", "ü"));
}

#[test]
fn first_entry_of_the_output_wins() {
    let listing = names(&["version", "card0", "card0-DP-10", "card0-DP-1", "card1-DP-1"]);
    assert_eq!(find_output_dir(&listing, "DP-1"), Ok(3));
    assert_eq!(find_output_dir(&listing, "DP-10"), Ok(2));
    let other_order = names(&["card1-DP-1", "card0-DP-1"]);
    assert_eq!(find_output_dir(&other_order, "DP-1"), Ok(0));
}

#[test]
fn output_not_found() {
    let listing = names(&["version", "card0", "card0-DP-10", "card0-eDP-1"]);
    assert_eq!(find_output_dir(&listing, "DP-1"), Err(ResolveError::OutputNotFound));
    assert_eq!(find_output_dir(&listing, "HDMI-A-1"), Err(ResolveError::OutputNotFound));
    assert_eq!(find_output_dir(&Vec::new(), "DP-1"), Err(ResolveError::OutputNotFound));
}

#[test]
fn final_component_of_a_path() {
    assert_eq!(final_component_of("../../../i2c-7"), Some("i2c-7".to_string()));
    assert_eq!(final_component_of("/sys/devices/pci0000:00/i2c-12"), Some("i2c-12".to_string()));
    assert_eq!(final_component_of("i2c-3"), Some("i2c-3".to_string()));
    assert_eq!(final_component_of("a/b"), Some("b".to_string()));
    assert_eq!(final_component_of("a/b/"), Some("b".to_string()));
    assert_eq!(final_component_of("a/b//"), Some("b".to_string()));
    assert_eq!(final_component_of("a/b/."), Some("b".to_string()));
    assert_eq!(final_component_of("a/b/.//"), Some("b".to_string()));
    assert_eq!(final_component_of("./b"), Some("b".to_string()));
    assert_eq!(final_component_of("a/..b"), Some("..b".to_string()));
    assert_eq!(final_component_of("a/.b"), Some(".b".to_string()));
    assert_eq!(final_component_of("a/..."), Some("...".to_string()));
    assert_eq!(final_component_of("é/ü"), Some("ü".to_string()));
}

#[test]
fn path_without_a_final_component() {
    assert_eq!(final_component_of(""), None);
    assert_eq!(final_component_of("/"), None);
    assert_eq!(final_component_of("//"), None);
    assert_eq!(final_component_of("."), None);
    assert_eq!(final_component_of("./"), None);
    assert_eq!(final_component_of("/."), None);
    assert_eq!(final_component_of(".."), None);
    assert_eq!(final_component_of("a/.."), None);
    assert_eq!(final_component_of("a/../"), None);
    assert_eq!(final_component_of("a/.././"), None);
    assert_eq!(final_component_of("../.."), None);
}

fn by_the_standard_library(path: &str) -> Option<String> {
    std::path::Path::new(path).file_name().and_then(|name| name.to_str()).map(|name| name.to_string())
}

#[test]
fn final_component_agrees_with_the_standard_library() {
    let alphabet = ['/', '.', 'a', '-'];
    let mut paths: Vec<String> = vec![String::new()];
    let mut from = 0;
    for _ in 0..7 {
        let upto = paths.len();
        for i in from..upto {
            for c in alphabet {
                let mut longer = paths[i].clone();
                longer.push(c);
                paths.push(longer);
            }
        }
        from = upto;
    }
    for path in &paths {
        assert_eq!(final_component_of(path), by_the_standard_library(path), "{:?}", path);
    }
}

#[test]
fn device_of_an_entry() {
    assert_eq!(entry_device(&plain("i2c-7")), Some("i2c-7".to_string()));
    assert_eq!(entry_device(&link("i2c-7", "../elsewhere")), Some("i2c-7".to_string()));
    assert_eq!(entry_device(&link("ddc", "../../../i2c-4")), Some("i2c-4".to_string()));
    assert_eq!(entry_device(&link("ddc", "anything")), Some("anything".to_string()));
}

#[test]
fn entry_that_names_no_device() {
    assert_eq!(entry_device(&plain("ddc")), None);
    assert_eq!(entry_device(&link("ddc", "..")), None);
    assert_eq!(entry_device(&link("ddc", "")), None);
    assert_eq!(entry_device(&link("ddc2", "../i2c-4")), None);
    assert_eq!(entry_device(&link("device", "../i2c-4")), None);
    assert_eq!(entry_device(&plain("status")), None);
    assert_eq!(entry_device(&plain("i2c")), None);
    assert_eq!(entry_device(&plain("")), None);
}

#[test]
fn first_entry_with_a_device_wins() {
    let entries = vec![
        plain("status"),
        plain("edid"),
        link("ddc", "../../../i2c-4"),
        plain("i2c-9"),
    ];
    assert_eq!(pick_device(&entries), Ok("i2c-4".to_string()));
    let entries = vec![plain("status"), plain("i2c-9"), link("ddc", "../../../i2c-4")];
    assert_eq!(pick_device(&entries), Ok("i2c-9".to_string()));
    let entries = vec![plain("ddc"), link("ddc", ".."), plain("i2c-2")];
    assert_eq!(pick_device(&entries), Ok("i2c-2".to_string()));
}

#[test]
fn device_not_found() {
    assert_eq!(pick_device(&Vec::new()), Err(ResolveError::DeviceNotFound));
    let entries = vec![plain("status"), plain("edid"), plain("ddc"), plain("enabled")];
    assert_eq!(pick_device(&entries), Err(ResolveError::DeviceNotFound));
}

fn a_machine() -> Vec<OutputDir> {
    vec![
        dir("version", vec![]),
        dir("card0", vec![plain("dev"), plain("card0-DP-1")]),
        dir("card0-DP-10", vec![plain("status"), plain("i2c-10")]),
        dir("card0-eDP-1", vec![plain("status"), plain("i2c-3")]),
        dir("card0-DP-1", vec![plain("status"), link("ddc", "../../../i2c-6"), plain("i2c-11")]),
        dir("card0-HDMI-A-1", vec![plain("status"), plain("edid")]),
        dir("card1-DP-1", vec![plain("i2c-20")]),
    ]
}

#[test]
fn resolve_an_output() {
    let machine = a_machine();
    assert_eq!(resolve("DP-1", &machine), Ok("i2c-6".to_string()));
    assert_eq!(resolve("DP-10", &machine), Ok("i2c-10".to_string()));
    assert_eq!(resolve("eDP-1", &machine), Ok("i2c-3".to_string()));
}

#[test]
fn resolve_does_not_take_a_longer_name() {
    let machine = vec![dir("card0-DP-10", vec![plain("i2c-10")])];
    assert_eq!(resolve("DP-1", &machine), Err(ResolveError::OutputNotFound));
    assert_eq!(resolve("DP-10", &machine), Ok("i2c-10".to_string()));
}

#[test]
fn resolve_keeps_a_device_name() {
    let machine = a_machine();
    assert_eq!(resolve("i2c-4", &machine), Ok("i2c-4".to_string()));
    assert_eq!(resolve("i2c-4", &Vec::new()), Ok("i2c-4".to_string()));
    assert_eq!(resolve("i2c-", &Vec::new()), Ok("i2c-".to_string()));
}

#[test]
fn resolve_failures() {
    let machine = a_machine();
    assert_eq!(resolve("DP-2", &machine), Err(ResolveError::OutputNotFound));
    assert_eq!(resolve("HDMI-A-1", &machine), Err(ResolveError::DeviceNotFound));
    assert_eq!(resolve("", &machine), Err(ResolveError::OutputNotFound));
    assert_eq!(resolve("DP-1", &Vec::new()), Err(ResolveError::OutputNotFound));
}

#[test]
fn resolve_looks_into_the_first_entry_only() {
    // The first entry of the output has no device; a later one is not tried.
    let machine = vec![
        dir("card0-DP-1", vec![plain("status")]),
        dir("card1-DP-1", vec![plain("i2c-20")]),
    ];
    assert_eq!(resolve("DP-1", &machine), Err(ResolveError::DeviceNotFound));
}

#[test]
fn resolve_error_messages() {
    assert_eq!(ResolveError::OutputNotFound.message(), "output name not found in /sys/class/drm");
    assert_eq!(ResolveError::DeviceNotFound.message(), "i2c dev not found");
}

#[test]
fn steps_for_a_device_name() {
    assert_eq!(begin("i2c-4"), Step::Done(Ok("i2c-4".to_string())));
    assert_eq!(begin("i2c-"), Step::Done(Ok("i2c-".to_string())));
}

#[test]
fn steps_for_an_output() {
    assert_eq!(begin("DP-1"), Step::ListAdapters);
    let listing = names(&["version", "card0", "card0-DP-10", "card0-DP-1", "card1-DP-1"]);
    assert_eq!(after_adapters("DP-1", &listing), Step::ListOutput("card0-DP-1".to_string()));
    let entries = vec![plain("status"), link("ddc", "../../../i2c-6"), plain("i2c-11")];
    assert_eq!(after_entries(&entries), Step::Done(Ok("i2c-6".to_string())));
}

#[test]
fn steps_that_end_without_a_device() {
    assert_eq!(begin(""), Step::ListAdapters);
    let listing = names(&["version", "card0", "card0-DP-10"]);
    assert_eq!(after_adapters("DP-1", &listing), Step::Done(Err(ResolveError::OutputNotFound)));
    assert_eq!(after_adapters("DP-1", &Vec::new()), Step::Done(Err(ResolveError::OutputNotFound)));
    let entries = vec![plain("status"), plain("ddc")];
    assert_eq!(after_entries(&entries), Step::Done(Err(ResolveError::DeviceNotFound)));
    assert_eq!(after_entries(&Vec::new()), Step::Done(Err(ResolveError::DeviceNotFound)));
}

fn walk(output: &str, machine: &[OutputDir]) -> Result<String, ResolveError> {
    let mut step = begin(output);
    loop {
        step = match step {
            Step::ListAdapters => {
                let listing: Vec<String> = machine.iter().map(|dir| dir.name.clone()).collect();
                after_adapters(output, &listing)
            }
            Step::ListOutput(name) => {
                let dir = machine.iter().find(|dir| dir.name == name).unwrap();
                after_entries(&dir.entries)
            }
            Step::Done(found) => return found,
        };
    }
}

#[test]
fn steps_agree_with_resolve() {
    let machine = a_machine();
    for output in ["DP-1", "DP-10", "eDP-1", "HDMI-A-1", "DP-2", "i2c-4", "", "1", "card0-DP-1"] {
        assert_eq!(walk(output, &machine), resolve(output, &machine), "{}", output);
    }
}

fn by_the_plain_rules(name: &str, output: &str) -> bool {
    if name.starts_with("card") && name.ends_with(output) {
        if name.len() < output.len() + 1 {
            return false;
        }
        let before_name = name.len() - output.len() - 1;
        name.is_char_boundary(before_name) && &name[before_name..before_name + 1] == "-"
    } else {
        false
    }
}

fn all_texts(alphabet: &[char], longest: usize) -> Vec<String> {
    let mut texts: Vec<String> = vec![String::new()];
    let mut from = 0;
    for _ in 0..longest {
        let upto = texts.len();
        for i in from..upto {
            for c in alphabet {
                let mut longer = texts[i].clone();
                longer.push(*c);
                texts.push(longer);
            }
        }
        from = upto;
    }
    texts
}

#[test]
fn entries_agree_with_the_plain_rules() {
    let outputs = all_texts(&['-', 'D', '1', 'd', 'é'], 3);
    let tails = all_texts(&['-', 'D', '1', 'd', 'é'], 4);
    for head in ["card", "car", "card0", "xcard", ""] {
        for tail in &tails {
            let name = format!("{}{}", head, tail);
            for output in &outputs {
                assert_eq!(
                    is_output_dir(&name, output),
                    by_the_plain_rules(&name, output),
                    "{:?} for {:?}",
                    name,
                    output
                );
            }
        }
    }
}
