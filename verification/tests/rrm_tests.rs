use rust_ray::rrm::{
    has_map_extension, load_map_content, map_initialize, read_map_data, FileInfo, MapError,
};
use rust_ray::tile_map::{Cell, TileMap};

fn load(text: &str) -> TileMap {
    let mut map = TileMap::default();
    read_map_data(&text.as_bytes().to_vec(), &mut map);
    map
}

#[test]
fn loads_a_small_binary_map_cell_for_cell() {
    let map = load("SIZE=3\n[1,0,1,],\n[0,1,0,],\n[1,1,1,],\n");
    assert_eq!(map.width(), 3);
    assert_eq!(map.height(), 3);
    assert_eq!(map.cell_size(), 9);
    let expected = [[1, 0, 1], [0, 1, 0], [1, 1, 1]];
    for row in 0..3 {
        for col in 0..3 {
            let want = if expected[row][col] == 1 { Cell::Wall } else { Cell::Empty };
            assert_eq!(map.cell_at(col, row), want);
        }
    }
}

#[test]
fn loads_a_full_eight_by_eight_map() {
    let text = "SIZE=8\n\
        [1, 1, 1, 1, 1, 1, 1, 1,],\n\
        [1, 0, 0, 0, 0, 0, 0, 1,],\n\
        [1, 0, 0, 0, 0, 1, 0, 1,],\n\
        [1, 1, 1, 1, 0, 1, 1, 1,],\n\
        [1, 0, 0, 1, 0, 0, 0, 1,],\n\
        [1, 0, 0, 0, 0, 0, 0, 1,],\n\
        [1, 0, 0, 1, 0, 0, 0, 1,],\n\
        [1, 1, 1, 1, 1, 1, 1, 1,],\n";
    let map = load(text);
    assert_eq!(map.width(), 8);
    assert_eq!(map.cell_size(), 64);
    assert_eq!(map.cell_at(0, 0), Cell::Wall);
    assert_eq!(map.cell_at(1, 1), Cell::Empty);
    assert_eq!(map.cell_at(5, 2), Cell::Wall);
    assert_eq!(map.cell_at(4, 3), Cell::Empty);
    assert_eq!(map.cell_at(3, 3), Cell::Wall);
    assert_eq!(map.cell_at(3, 6), Cell::Wall);
    assert_eq!(map.cell_at(7, 7), Cell::Wall);
}

#[test]
fn malformed_tokens_default_to_empty() {
    let map = load("SIZE=2\n[x,1,],\n[1,abc,],\n");
    assert_eq!(map.cell_at(0, 0), Cell::Empty);
    assert_eq!(map.cell_at(1, 0), Cell::Wall);
    assert_eq!(map.cell_at(0, 1), Cell::Wall);
    assert_eq!(map.cell_at(1, 1), Cell::Empty);
}

#[test]
fn numeric_but_overflowing_token_defaults_to_empty() {
    let map = load("SIZE=2\n[999,1,],\n[1,1,],\n");
    assert_eq!(map.cell_at(0, 0), Cell::Empty);
    assert_eq!(map.cell_at(1, 0), Cell::Wall);
}

#[test]
fn row_without_the_inner_trailing_comma_loses_its_last_value() {
    // the grammar ends each row with a comma inside the brackets; without
    // it, the closing bracket sticks to the last token, which then reads
    // as a malformed 0
    let map = load("SIZE=2\n[1,1],\n[1,1,],\n");
    assert_eq!(map.cell_at(0, 0), Cell::Wall);
    assert_eq!(map.cell_at(1, 0), Cell::Empty);
    assert_eq!(map.cell_at(1, 1), Cell::Wall);
}

#[test]
fn plus_signed_token_parses() {
    let map = load("SIZE=2\n[+1,0,],\n[0,0,],\n");
    assert_eq!(map.cell_at(0, 0), Cell::Wall);
}

#[test]
fn nonbinary_value_is_stored_but_not_a_wall() {
    let map = load("SIZE=2\n[2,1,],\n[0,0,],\n");
    assert_eq!(map.cell_at(0, 0), Cell::Empty);
    assert_eq!(map.cell_at(1, 0), Cell::Wall);
}

#[test]
fn short_rows_leave_the_rest_empty() {
    let map = load("SIZE=3\n[1,],\n[1,1,],\n");
    assert_eq!(map.cell_at(0, 0), Cell::Wall);
    assert_eq!(map.cell_at(1, 0), Cell::Empty);
    assert_eq!(map.cell_at(2, 0), Cell::Empty);
    assert_eq!(map.cell_at(0, 1), Cell::Wall);
    assert_eq!(map.cell_at(1, 1), Cell::Wall);
    assert_eq!(map.cell_at(2, 1), Cell::Empty);
    // the third row has no line at all
    assert_eq!(map.cell_at(0, 2), Cell::Empty);
    assert_eq!(map.cell_at(2, 2), Cell::Empty);
}

#[test]
fn rows_beyond_the_size_are_ignored() {
    let map = load("SIZE=2\n[1,1,],\n[1,1,],\n[1,1,],\n[1,1,],\n");
    assert_eq!(map.width(), 2);
    assert_eq!(map.cell_at(2, 0), Cell::OutOfBounds);
    assert_eq!(map.cell_at(0, 2), Cell::OutOfBounds);
}

#[test]
fn malformed_size_degrades_to_the_default() {
    let map = load("SIZE=abc\n[1,1,],\n");
    assert_eq!(map.width(), 8);
    assert_eq!(map.height(), 8);
    assert_eq!(map.cell_size(), 64);
    // the first row still loads
    assert_eq!(map.cell_at(0, 0), Cell::Wall);
    assert_eq!(map.cell_at(2, 0), Cell::Empty);
}

#[test]
fn zero_and_negative_sizes_degrade_to_the_default() {
    assert_eq!(load("SIZE=0\n").width(), 8);
    assert_eq!(load("SIZE=-3\n").width(), 8);
    assert_eq!(load("SIZE=70000\n").width(), 8);
}

#[test]
fn size_line_without_equals_is_read_whole() {
    let map = load("3\n[1,1,1,],\n");
    assert_eq!(map.width(), 3);
}

#[test]
fn size_token_after_last_equals_with_spaces() {
    let map = load("SIZE = 4 \n");
    assert_eq!(map.width(), 4);
    assert_eq!(map.cell_size(), 16);
}

#[test]
fn empty_text_gives_the_default_empty_map() {
    let map = load("");
    assert_eq!(map.width(), 8);
    assert_eq!(map.cell_size(), 64);
    for row in 0..8 {
        for col in 0..8 {
            assert_eq!(map.cell_at(col, row), Cell::Empty);
        }
    }
}

#[test]
fn carriage_returns_are_tolerated() {
    let map = load("SIZE=2\r\n[1,0,],\r\n[0,1,],\r\n");
    assert_eq!(map.cell_at(0, 0), Cell::Wall);
    assert_eq!(map.cell_at(1, 0), Cell::Empty);
    assert_eq!(map.cell_at(0, 1), Cell::Empty);
    assert_eq!(map.cell_at(1, 1), Cell::Wall);
}

#[test]
fn a_load_replaces_the_map_wholesale() {
    let mut map = TileMap::default();
    read_map_data(&b"SIZE=2\n[1,1,],\n[1,1,],\n".to_vec(), &mut map);
    assert_eq!(map.width(), 2);
    assert_eq!(map.cell_at(0, 0), Cell::Wall);
    read_map_data(&b"SIZE=3\n[0,0,0,],\n[0,0,0,],\n[0,0,0,],\n".to_vec(), &mut map);
    assert_eq!(map.width(), 3);
    assert_eq!(map.cell_at(0, 0), Cell::Empty);
    assert_eq!(map.cell_at(2, 2), Cell::Empty);
}

#[test]
fn unreadable_content_is_an_error_and_leaves_the_map() {
    let mut map = TileMap::default();
    let r = load_map_content(None, &mut map);
    assert_eq!(r, Err(MapError::Unreadable));
    assert_eq!(map.width(), 8);
    assert_eq!(map.cell_at(2, 2), Cell::Wall);
}

#[test]
fn readable_content_loads() {
    let mut map = TileMap::default();
    let r = load_map_content(Some(&b"SIZE=2\n[1,0,],\n[0,1,],\n".to_vec()), &mut map);
    assert_eq!(r, Ok(()));
    assert_eq!(map.width(), 2);
}

fn fi(name: &str, path: &str) -> FileInfo {
    FileInfo { name: String::from(name), path: String::from(path) }
}

#[test]
fn missing_folder_is_not_found() {
    assert_eq!(map_initialize(None), Err(MapError::NotFound));
}

#[test]
fn folder_without_map_files_is_an_inert_no_op() {
    let files = vec![fi("a.txt", "maps/a.txt"), fi("b.png", "maps/b.png")];
    assert_eq!(map_initialize(Some(&files)), Ok(None));
    assert_eq!(map_initialize(Some(&Vec::new())), Ok(None));
}

#[test]
fn first_map_file_wins() {
    let files = vec![
        fi("readme.md", "maps/readme.md"),
        fi("level1.rrm", "maps/level1.rrm"),
        fi("level2.rrm", "maps/level2.rrm"),
    ];
    assert_eq!(map_initialize(Some(&files)), Ok(Some(1)));
}

#[test]
fn extension_matching_follows_file_name_rules() {
    assert!(has_map_extension("maps/level.rrm"));
    assert!(has_map_extension("level.rrm"));
    assert!(has_map_extension("maps/level.v2.rrm"));
    assert!(has_map_extension("maps/.hidden.rrm"));
    // a hidden file's leading dot opens no extension
    assert!(!has_map_extension("maps/.rrm"));
    // case and suffix must match exactly
    assert!(!has_map_extension("maps/level.RRM"));
    assert!(!has_map_extension("maps/levelrrm"));
    assert!(!has_map_extension("maps/level.rrm.bak"));
    assert!(!has_map_extension("maps/level.rr"));
    assert!(!has_map_extension("maps/level.rrmm"));
    // the extension belongs to the file name, not a folder
    assert!(!has_map_extension("maps.rrm/level"));
}
