use zbus::gen::{
    inputs_output_from_args, read_write_from_access, to_rust_type, try_inputs_output_from_args,
    try_read_write_from_access, try_to_rust_type, write_method, write_property, Arg, GenTrait,
    Interface, Method, Property,
};

fn arg(name: Option<&str>, ty: &str, direction: Option<&str>) -> Arg {
    Arg {
        name: name.map(|n| n.to_string()),
        ty: ty.to_string(),
        direction: direction.map(|d| d.to_string()),
    }
}

fn example() -> Interface {
    Interface {
        name: "com.example.SampleInterface0".to_string(),
        methods: vec![
            Method {
                name: "Frobate".to_string(),
                args: vec![
                    arg(Some("foo"), "i", Some("in")),
                    arg(Some("bar"), "s", Some("out")),
                    arg(Some("baz"), "a{us}", Some("out")),
                ],
            },
            Method {
                name: "Bazify".to_string(),
                args: vec![
                    arg(Some("bar"), "(iiu)", Some("in")),
                    arg(Some("bar"), "v", Some("out")),
                ],
            },
            Method {
                name: "MogrifyMe".to_string(),
                args: vec![arg(Some("bar"), "(iiav)", Some("in"))],
            },
        ],
        properties: vec![Property {
            name: "Bar".to_string(),
            ty: "y".to_string(),
            access: "readwrite".to_string(),
        }],
    }
}

#[test]
fn gen() {
    let iface = example();
    let t = GenTrait(&iface).render().unwrap();
    println!("{}", t);
}

#[test]
fn gen_writes_the_whole_trait() {
    let iface = example();
    let expected = "#[dbus_proxy(interface = \"com.example.SampleInterface0\")]\n\
trait SampleInterface0 {\n\
\n\
\x20   /// Bazify method\n\
\x20   fn bazify(&self, bar: &(i32, i32, u32)) -> zbus::Result<zvariant::OwnedValue>;\n\
\n\
\x20   /// Frobate method\n\
\x20   fn frobate(&self, foo: i32) -> zbus::Result<(String, std::collections::HashMap<u32, String>)>;\n\
\n\
\x20   /// MogrifyMe method\n\
\x20   fn mogrify_me(&self, bar: &(i32, i32, [zvariant::Value])) -> zbus::Result<()>;\n\
\n\
\x20   /// Bar property\n\
\x20   #[dbus_proxy(property)]\n\
\x20   fn bar(&self) -> zbus::Result<u8>;\n\
\x20   #[DBusProxy(property)]\n\
\x20   fn set_bar(&self, value: u8) -> zbus::Result<()>;\n\
}\n";
    assert_eq!(GenTrait(&iface).render().unwrap(), expected);
    assert_eq!(GenTrait(&iface).to_string(), expected);
}

#[test]
fn rust_types() {
    let cases = [
        ("y", "u8", "u8"),
        ("b", "bool", "bool"),
        ("n", "i16", "i16"),
        ("q", "u16", "u16"),
        ("i", "i32", "i32"),
        ("u", "u32", "u32"),
        ("x", "i64", "i64"),
        ("t", "u64", "u64"),
        ("d", "f64", "f64"),
        ("h", "std::os::unix::io::RawFd", "std::os::unix::io::RawFd"),
        ("s", "&str", "String"),
        ("o", "&str", "String"),
        ("g", "&str", "String"),
        ("v", "&zvariant::Value", "zvariant::OwnedValue"),
        ("as", "&[&str]", "Vec<String>"),
        ("av", "&[zvariant::Value]", "Vec<zvariant::OwnedValue>"),
        ("aai", "&[[i32]]", "Vec<Vec<i32>>"),
        (
            "a{sv}",
            "std::collections::HashMap<&str, zvariant::Value>",
            "std::collections::HashMap<String, zvariant::OwnedValue>",
        ),
        ("(ii)", "&(i32, i32)", "(i32, i32)"),
        ("(i)", "i32", "i32"),
        ("(s)", "&str", "String"),
        ("(iiav)", "&(i32, i32, [zvariant::Value])", "(i32, i32, Vec<zvariant::OwnedValue>)"),
        ("a(ii)", "&[(i32, i32)]", "Vec<(i32, i32)>"),
        // A closing bracket is left unread and ends every group around it.
        ("((i)i)", "i32", "i32"),
        ("(a{sv}i)", "std::collections::HashMap<&str, zvariant::Value>",
            "std::collections::HashMap<String, zvariant::OwnedValue>"),
        ("(i(ii)i)", "&(i32, (i32, i32))", "(i32, (i32, i32))"),
        // Only the first type is read.
        ("ii", "i32", "i32"),
        ("i)", "i32", "i32"),
        ("{}", "", ""),
        ("{i}", "i32", "i32"),
        ("(i}", "i32", "i32"),
    ];
    for (ty, input, output) in cases {
        assert_eq!(to_rust_type(ty, true), input, "{}", ty);
        assert_eq!(to_rust_type(ty, false), output, "{}", ty);
        assert_eq!(try_to_rust_type(ty, true).as_deref(), Some(input), "{}", ty);
        assert_eq!(try_to_rust_type(ty, false).as_deref(), Some(output), "{}", ty);
    }
    for ty in ["", "a", "(", "(i", "()", "z", ")", "a)", "a{", "(z)", "ä", "(ii", "a{s"] {
        assert_eq!(try_to_rust_type(ty, true), None, "{}", ty);
        assert_eq!(try_to_rust_type(ty, false), None, "{}", ty);
    }
}

#[test]
fn access_kinds() {
    assert_eq!(read_write_from_access("read"), (true, false));
    assert_eq!(read_write_from_access("write"), (false, true));
    assert_eq!(read_write_from_access("readwrite"), (true, true));
    assert_eq!(try_read_write_from_access("read"), Some((true, false)));
    assert_eq!(try_read_write_from_access("writeread"), None);
    assert_eq!(try_read_write_from_access(""), None);
    assert_eq!(try_read_write_from_access("Read"), None);
}

#[test]
fn inputs_and_outputs() {
    let args = vec![
        arg(None, "s", Some("in")),
        arg(Some("count"), "u", Some("in")),
        arg(None, "as", Some("in")),
        arg(None, "i", Some("out")),
    ];
    assert_eq!(
        inputs_output_from_args(&args),
        (
            "&self, arg_1: &str, count: u32, arg_2: &[&str]".to_string(),
            " -> zbus::Result<i32>".to_string()
        )
    );
    assert_eq!(
        inputs_output_from_args(&[]),
        ("&self".to_string(), " -> zbus::Result<()>".to_string())
    );
    let two = vec![arg(Some("a"), "s", Some("out")), arg(Some("b"), "a{sv}", Some("out"))];
    assert_eq!(
        inputs_output_from_args(&two),
        (
            "&self".to_string(),
            " -> zbus::Result<(String, std::collections::HashMap<String, zvariant::OwnedValue>)>"
                .to_string()
        )
    );
    let many: Vec<Arg> = (0..12).map(|_| arg(None, "y", Some("in"))).collect();
    let (inputs, _) = inputs_output_from_args(&many);
    assert!(inputs.ends_with("arg_9: u8, arg_10: u8, arg_11: u8, arg_12: u8"));

    assert_eq!(try_inputs_output_from_args(&[arg(None, "s", None)]), None);
    assert_eq!(try_inputs_output_from_args(&[arg(None, "s", Some("inout"))]), None);
    assert_eq!(try_inputs_output_from_args(&[arg(None, "", Some("in"))]), None);
    assert_eq!(try_inputs_output_from_args(&[arg(None, "(", Some("out"))]), None);
    assert!(try_inputs_output_from_args(&args).is_some());
}

#[test]
fn methods_and_properties_come_by_name() {
    let method = |name: &str| Method { name: name.to_string(), args: vec![] };
    let property = |name: &str, access: &str| Property {
        name: name.to_string(),
        ty: "s".to_string(),
        access: access.to_string(),
    };
    let iface = Interface {
        name: "org.zbus.Sorted".to_string(),
        methods: vec![method("beta"), method("Gamma"), method("alpha"), method("Alpha")],
        properties: vec![property("Zed", "read"), property("Able", "write")],
    };
    let text = GenTrait(&iface).to_string();
    let expected = "#[dbus_proxy(interface = \"org.zbus.Sorted\")]\n\
trait Sorted {\n\
\n\
\x20   /// Alpha method\n\
\x20   fn alpha(&self) -> zbus::Result<()>;\n\
\n\
\x20   /// Gamma method\n\
\x20   fn gamma(&self) -> zbus::Result<()>;\n\
\n\
\x20   /// alpha method\n\
\x20   fn alpha(&self) -> zbus::Result<()>;\n\
\n\
\x20   /// beta method\n\
\x20   fn beta(&self) -> zbus::Result<()>;\n\
\n\
\x20   /// Able property\n\
\x20   #[DBusProxy(property)]\n\
\x20   fn set_able(&self, value: &str) -> zbus::Result<()>;\n\
\n\
\x20   /// Zed property\n\
\x20   #[dbus_proxy(property)]\n\
\x20   fn zed(&self) -> zbus::Result<String>;\n\
}\n";
    assert_eq!(text, expected);
}

#[test]
fn what_cannot_be_written() {
    let mut iface = example();
    iface.name = "NoDots".to_string();
    assert_eq!(GenTrait(&iface).render(), None);
    let mut iface = example();
    iface.methods[1].args[0].direction = None;
    assert_eq!(GenTrait(&iface).render(), None);
    let mut iface = example();
    iface.methods[2].args[0].ty = "(ii".to_string();
    assert_eq!(GenTrait(&iface).render(), None);
    let mut iface = example();
    iface.properties[0].access = "none".to_string();
    assert_eq!(GenTrait(&iface).render(), None);
    let mut iface = example();
    iface.properties[0].ty = "".to_string();
    assert_eq!(GenTrait(&iface).render(), None);
    let empty = Interface { name: "a.".to_string(), methods: vec![], properties: vec![] };
    assert_eq!(
        GenTrait(&empty).render().unwrap(),
        "#[dbus_proxy(interface = \"a.\")]\ntrait  {\n}\n"
    );
}

#[test]
fn names_become_snake_case() {
    let iface = Interface {
        name: "org.zbus.Names".to_string(),
        methods: vec![Method { name: "GetAllTheThings".to_string(), args: vec![] }],
        properties: vec![Property {
            name: "MaxQueueLen".to_string(),
            ty: "u".to_string(),
            access: "readwrite".to_string(),
        }],
    };
    let text = GenTrait(&iface).to_string();
    assert!(text.contains("    fn get_all_the_things(&self) -> zbus::Result<()>;\n"));
    assert!(text.contains("    fn max_queue_len(&self) -> zbus::Result<u32>;\n"));
    assert!(text.contains("    fn set_max_queue_len(&self, value: u32) -> zbus::Result<()>;\n"));
    assert!(text.contains("    /// GetAllTheThings method\n"));
}

#[test]
fn lines_of_a_method_and_of_a_property() {
    assert_eq!(
        write_method("GetAll", "get_all", "&self, iface: &str", " -> zbus::Result<u8>"),
        "\n    /// GetAll method\n    fn get_all(&self, iface: &str) -> zbus::Result<u8>;\n"
    );
    assert_eq!(
        write_property("Bar", "bar", (true, true), "String", "&str"),
        "\n    /// Bar property\n    #[dbus_proxy(property)]\n    fn bar(&self) -> zbus::Result<String>;\n    #[DBusProxy(property)]\n    fn set_bar(&self, value: &str) -> zbus::Result<()>;\n"
    );
    assert_eq!(
        write_property("Bar", "bar", (true, false), "String", "&str"),
        "\n    /// Bar property\n    #[dbus_proxy(property)]\n    fn bar(&self) -> zbus::Result<String>;\n"
    );
    assert_eq!(
        write_property("Bar", "bar", (false, true), "String", "&str"),
        "\n    /// Bar property\n    #[DBusProxy(property)]\n    fn set_bar(&self, value: &str) -> zbus::Result<()>;\n"
    );
    assert_eq!(
        write_property("Bar", "bar", (false, false), "String", "&str"),
        "\n    /// Bar property\n"
    );
}
