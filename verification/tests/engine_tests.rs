use media_walker::list::read_folder;
use media_walker::tree::FsNode;
use media_walker::walk::read_folder_recursive;

fn file(name: &str, path: &str, size: u64) -> FsNode {
    FsNode::File { name: name.to_string(), path: path.to_string(), size }
}

fn dir(name: &str, path: &str, readable: bool, children: Vec<FsNode>) -> FsNode {
    FsNode::Dir { name: name.to_string(), path: path.to_string(), size: 0, readable, children }
}

#[test]
fn scenario_list_and_walk() {
    let root = dir(
        "root",
        "/root",
        true,
        vec![
            dir(
                "a",
                "/root/a",
                true,
                vec![
                    file("photo.jpg", "/root/a/photo.jpg", 3),
                    file("clip.mp4", "/root/a/clip.mp4", 4),
                    file("notes.txt", "/root/a/notes.txt", 5),
                ],
            ),
            file("b.png", "/root/b.png", 6),
        ],
    );

    let listing = read_folder(&root);
    assert_eq!(listing.len(), 2);
    assert_eq!(listing[0].name, "a");
    assert_eq!(listing[0].path, "/root/a");
    assert_eq!(listing[0].folder, "/root");
    assert_eq!(listing[0].file_type, "directory");
    assert!(listing[0].is_directory);
    assert_eq!(listing[1].name, "b.png");
    assert_eq!(listing[1].path, "/root/b.png");
    assert_eq!(listing[1].folder, "/root");
    assert_eq!(listing[1].file_type, "png");
    assert!(!listing[1].is_directory);

    let walked = read_folder_recursive(&root);
    assert_eq!(walked.len(), 3);
    assert_eq!(walked[0].name, "photo.jpg");
    assert_eq!(walked[0].folder, "/root/a");
    assert_eq!(walked[0].file_type, "jpg");
    assert_eq!(walked[1].name, "clip.mp4");
    assert_eq!(walked[1].folder, "/root/a");
    assert_eq!(walked[1].file_type, "mp4");
    assert_eq!(walked[2].name, "b.png");
    assert_eq!(walked[2].folder, "/root");
    assert!(walked.iter().all(|e| !e.is_directory));
    assert!(walked.iter().all(|e| e.name != "notes.txt"));
}

#[test]
fn list_keeps_enumeration_order_and_sizes() {
    let root = dir(
        "pics",
        "/pics",
        true,
        vec![
            file("one.GIF", "/pics/one.GIF", 11),
            file("skip.doc", "/pics/skip.doc", 12),
            file("two.webm", "/pics/two.webm", 13),
        ],
    );
    let listing = read_folder(&root);
    assert_eq!(listing.len(), 2);
    assert_eq!(listing[0].name, "one.GIF");
    assert_eq!(listing[0].file_type, "gif");
    assert_eq!(listing[0].size, 11);
    assert_eq!(listing[1].name, "two.webm");
    assert_eq!(listing[1].size, 13);
}

#[test]
fn list_of_unreadable_directory_is_empty() {
    let root = dir("secret", "/secret", false, vec![file("x.png", "/secret/x.png", 1)]);
    assert!(read_folder(&root).is_empty());
}

#[test]
fn list_of_file_node_is_empty() {
    let f = file("x.png", "/x.png", 1);
    assert!(read_folder(&f).is_empty());
}

#[test]
fn walk_skips_unreadable_subtree_but_keeps_siblings() {
    let root = dir(
        "root",
        "/root",
        true,
        vec![
            dir("locked", "/root/locked", false, vec![file("p.png", "/root/locked/p.png", 1)]),
            dir("open", "/root/open", true, vec![file("q.jpg", "/root/open/q.jpg", 2)]),
            file("r.bmp", "/root/r.bmp", 3),
        ],
    );
    let walked = read_folder_recursive(&root);
    assert_eq!(walked.len(), 2);
    assert_eq!(walked[0].name, "q.jpg");
    assert_eq!(walked[1].name, "r.bmp");
}

#[test]
fn walk_goes_depth_first_preorder() {
    let root = dir(
        "r",
        "/r",
        true,
        vec![
            file("a.jpg", "/r/a.jpg", 1),
            dir(
                "d1",
                "/r/d1",
                true,
                vec![
                    dir("d2", "/r/d1/d2", true, vec![file("deep.ogg", "/r/d1/d2/deep.ogg", 2)]),
                    file("mid.wav", "/r/d1/mid.wav", 3),
                ],
            ),
            file("z.flac", "/r/z.flac", 4),
        ],
    );
    let names: Vec<String> = read_folder_recursive(&root).into_iter().map(|e| e.name).collect();
    assert_eq!(names, vec!["a.jpg", "deep.ogg", "mid.wav", "z.flac"]);
}

#[test]
fn hidden_files_and_missing_extensions_are_excluded() {
    let root = dir(
        "h",
        "/h",
        true,
        vec![
            file(".png", "/h/.png", 1),
            file("README", "/h/README", 2),
            file("trailing.", "/h/trailing.", 3),
            file("ok.avif", "/h/ok.avif", 4),
        ],
    );
    let listing = read_folder(&root);
    assert_eq!(listing.len(), 1);
    assert_eq!(listing[0].name, "ok.avif");
    assert_eq!(listing[0].file_type, "avif");
}

#[test]
fn listing_after_removal_no_longer_holds_the_path() {
    let before = dir(
        "d",
        "/d",
        true,
        vec![file("keep.png", "/d/keep.png", 1), file("gone.jpg", "/d/gone.jpg", 2)],
    );
    assert!(read_folder(&before).iter().any(|e| e.path == "/d/gone.jpg"));

    let after = dir("d", "/d", true, vec![file("keep.png", "/d/keep.png", 1)]);
    assert!(read_folder(&after).iter().all(|e| e.path != "/d/gone.jpg"));
    assert!(read_folder(&after).iter().any(|e| e.path == "/d/keep.png"));
}

#[test]
fn only_last_extension_counts() {
    let root = dir(
        "t",
        "/t",
        true,
        vec![file("archive.tar.gz", "/t/archive.tar.gz", 1), file("movie.final.mov", "/t/movie.final.mov", 2)],
    );
    let listing = read_folder(&root);
    assert_eq!(listing.len(), 1);
    assert_eq!(listing[0].name, "movie.final.mov");
    assert_eq!(listing[0].file_type, "mov");
}
