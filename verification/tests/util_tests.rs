use pufferfish::short_type_name;
use pufferfish::{FileSystem, FileTask};

#[test]
fn short_names_drop_leading_path_segments() {
    assert_eq!(short_type_name("alloc::vec::Vec<i32>"), "Vec<i32>");
    assert_eq!(short_type_name("a::b::C"), "C");
    assert_eq!(short_type_name("Plain"), "Plain");
    assert_eq!(short_type_name(""), "");
    assert_eq!(short_type_name("::x"), "x");
    assert_eq!(
        short_type_name("alloc::vec::Vec<core::option::Option<u8>>"),
        "Vec<core::option::Option<u8>>"
    );
    assert_eq!(short_type_name("x::y<z::w>"), "y<z::w>");
}

struct FixedTask {
    data: Vec<u8>,
    extension: String,
}

impl FileTask for FixedTask {
    fn poll(&mut self) -> bool {
        true
    }

    fn data(&self) -> &Vec<u8> {
        &self.data
    }

    fn extension(&self) -> &String {
        &self.extension
    }
}

struct FixedFileSystem;

impl FileSystem for FixedFileSystem {
    type Task = FixedTask;

    fn read(&mut self, path: &String) -> FixedTask {
        FixedTask { data: path.as_bytes().to_vec(), extension: "txt".to_string() }
    }
}

#[test]
fn a_driver_can_implement_the_file_interfaces() {
    let mut fs = FixedFileSystem;
    let mut task = fs.read(&"hello".to_string());
    assert!(task.poll());
    assert_eq!(task.data(), b"hello");
    assert_eq!(task.extension(), "txt");
}
