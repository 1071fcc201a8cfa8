use kernel::driver::fs::initramfs::{split_path, ArchiveFile, Branch, Error, File, InitRAMFS};
use kernel::driver::fs::Permissions;
use kernel::memory::allocator::Allocator;
use kernel::memory::ppn::PPNRange;

fn frames(count: u32) -> Allocator {
    let mut ranges = vec![PPNRange::from_ptr(0x8000_0000, count + 2)];
    Allocator::new(&mut ranges).unwrap()
}

fn file(name: &str, permissions: u16, len: usize) -> ArchiveFile {
    ArchiveFile { name: name.as_bytes().to_vec(), permissions: Permissions(permissions), data: vec![0x5a; len] }
}

#[test]
fn paths_split_at_separators() {
    let parts = split_path(&b"bin/sh".to_vec());
    assert_eq!(parts, vec![b"bin".to_vec(), b"sh".to_vec()]);
    assert_eq!(split_path(&b"init".to_vec()), vec![b"init".to_vec()]);
    assert_eq!(split_path(&b"".to_vec()), vec![Vec::<u8>::new()]);
    assert_eq!(split_path(&b"/a//b/".to_vec()), vec![vec![], b"a".to_vec(), vec![], b"b".to_vec(), vec![]]);
}

#[test]
fn builds_the_tree() {
    let files = vec![file("bin/sh", 0o755, 5000), file("bin/ls", 0o700, 0), file("init", 0o644, 10)];
    let mut f = frames(8);
    let fs = InitRAMFS::parse(&files, &mut f).unwrap();
    // Pages: two for `sh`, none for `ls`, one for `init`.
    assert_eq!(f.len(), 5);
    assert_eq!(fs.root.len(), 2);
    let bin = &fs.nodes[fs.root[0]];
    assert_eq!(bin.name, b"bin");
    // A directory made for a file takes the file's permissions.
    assert_eq!(bin.permissions.0, 0o755);
    let kids = bin.data.as_directory().unwrap();
    assert_eq!(kids.len(), 2);
    let sh = &fs.nodes[kids[0]];
    assert_eq!(sh.name, b"sh");
    let sh_file = sh.data.as_file().unwrap();
    assert_eq!(sh_file.size, 5000);
    assert_eq!(sh_file.pages.len(), 2);
    assert_eq!(sh_file.data.len(), 5000);
    let ls = &fs.nodes[kids[1]];
    assert_eq!(ls.name, b"ls");
    assert_eq!(ls.permissions.0, 0o700);
    assert_eq!(ls.data.as_file().unwrap().pages.len(), 0);
    let init = &fs.nodes[fs.root[1]];
    assert_eq!(init.name, b"init");
    assert!(init.data.as_directory().is_none());
    assert_eq!(init.data.as_file().unwrap().pages.len(), 1);
}

#[test]
fn file_used_as_directory() {
    let files = vec![file("init", 0o644, 1), file("init/x", 0o644, 1)];
    let mut f = frames(8);
    assert!(matches!(InitRAMFS::parse(&files, &mut f), Err(Error::FileTreatedAsDirectory)));
}

#[test]
fn out_of_pages() {
    let files = vec![file("big", 0o644, 3 * 4096 + 1)];
    let mut f = frames(3);
    assert!(matches!(InitRAMFS::parse(&files, &mut f), Err(Error::MemoryManagerError(_))));
}

#[test]
fn directory_children_can_be_changed() {
    let mut dir = Branch::Directory(vec![1, 2]);
    dir.as_directory_mut().unwrap().push(3);
    assert_eq!(dir.as_directory().unwrap(), &vec![1, 2, 3]);
    let mut file = Branch::File(File { size: 0, pages: vec![], data: vec![] });
    assert!(file.as_directory_mut().is_none());
    assert!(file.as_file().is_some());
}
