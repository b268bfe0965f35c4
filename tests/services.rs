use cch_rooms::archive::{num_files, size_files, ArchiveError};
use cch_rooms::packets::{PacketError, PacketStore};
use cch_rooms::paging::{paginate_list, Page, PageError, Pagination};
use cch_rooms::pixels::{count_magic_red, num_red_pixels, PixelError};
use cch_rooms::ulids::{convert_ulids, ulid_info, UlidError, UlidReport};

fn names() -> Vec<String> {
    (0..10).map(|i| format!("n{}", i)).collect()
}

fn flat(p: Page<String>) -> Vec<String> {
    match p {
        Page::Flat(v) => v,
        Page::Split(_) => panic!("expected a flat page"),
    }
}

fn split(p: Page<String>) -> Vec<Vec<String>> {
    match p {
        Page::Split(v) => v,
        Page::Flat(_) => panic!("expected a split page"),
    }
}

#[test]
fn page_with_offset_and_limit() {
    let q = Pagination { offset: Some(3), limit: Some(5), split: None };
    let page = flat(paginate_list(names(), &q).unwrap());
    assert_eq!(page, vec!["n3", "n4", "n5", "n6", "n7"]);
}

#[test]
fn page_defaults_to_the_whole_list() {
    let q = Pagination { offset: None, limit: None, split: None };
    assert_eq!(flat(paginate_list(names(), &q).unwrap()), names());
    let q = Pagination { offset: Some(8), limit: None, split: None };
    assert_eq!(flat(paginate_list(names(), &q).unwrap()), vec!["n8", "n9"]);
}

#[test]
fn page_is_split_into_chunks() {
    let q = Pagination { offset: None, limit: None, split: Some(4) };
    let chunks = split(paginate_list(names(), &q).unwrap());
    assert_eq!(chunks.len(), 3);
    assert_eq!(chunks[0], vec!["n0", "n1", "n2", "n3"]);
    assert_eq!(chunks[2], vec!["n8", "n9"]);
}

#[test]
fn page_out_of_range_is_refused() {
    let q = Pagination { offset: Some(11), limit: None, split: None };
    assert!(matches!(paginate_list(names(), &q), Err(PageError::OutOfRange)));
    let q = Pagination { offset: Some(5), limit: Some(6), split: None };
    assert!(matches!(paginate_list(names(), &q), Err(PageError::OutOfRange)));
}

#[test]
fn zero_split_is_refused() {
    let q = Pagination { offset: None, limit: Some(2), split: Some(0) };
    assert!(matches!(paginate_list(names(), &q), Err(PageError::ZeroSplit)));
}

#[test]
fn empty_list_gives_empty_page() {
    let q = Pagination { offset: Some(4), limit: Some(2), split: Some(3) };
    assert!(flat(paginate_list(Vec::new(), &q).unwrap()).is_empty());
}

#[test]
fn ulids_become_uuids_in_reverse() {
    let texts = vec![
        "01BJQ0E1C3Z56ABCD0E11HYX4M".to_string(),
        "not a ulid".to_string(),
        "01HJDM8S8000000000000004HN".to_string(),
    ];
    assert_eq!(
        convert_ulids(&texts),
        vec!["018c9b44-6500-0000-0000-000000001235", "015cae07-0583-f94c-a5b1-a070431f7494"]
    );
}

fn report_ulids() -> Vec<String> {
    vec![
        "01HJDM8S8000000000000004HN".to_string(),
        "01GN398G0R00000000000004HM".to_string(),
        "01HJF4AW000000000000000002".to_string(),
        "0XHZD4SR000000000000000003".to_string(),
        "garbage".to_string(),
    ]
}

#[test]
fn ulid_report_counts() {
    let now = 1_800_000_000_000u64;
    let report = ulid_info(6, &report_ulids(), now).unwrap();
    assert_eq!(report, UlidReport { christmas_eve: 2, weekday: 1, in_the_future: 1, lsb_is_one: 2 });
    let report = ulid_info(0, &report_ulids(), now).unwrap();
    assert_eq!(report.weekday, 1);
    let report = ulid_info(5, &report_ulids(), 0).unwrap();
    assert_eq!(report.weekday, 1);
    assert_eq!(report.in_the_future, 4);
}

#[test]
fn ulid_report_refuses_bad_weekday() {
    assert_eq!(ulid_info(7, &report_ulids(), 0), Err(UlidError::BadWeekday));
}

#[test]
fn packet_elapsed_time() {
    let mut store = PacketStore::new();
    store.add_packet("abc".to_string(), 100);
    store.add_packet("xyz".to_string(), 120);
    assert_eq!(store.load_packet(&"abc".to_string(), 105), Ok(5));
    store.add_packet("abc".to_string(), 110);
    assert_eq!(store.load_packet(&"abc".to_string(), 115), Ok(5));
    assert_eq!(store.load_packet(&"xyz".to_string(), 121), Ok(1));
}

#[test]
fn unknown_packet_is_refused() {
    let store = PacketStore::new();
    assert_eq!(store.load_packet(&"abc".to_string(), 5), Err(PacketError::Unknown));
}

#[test]
fn packet_elapsed_overflow_is_refused() {
    let mut store = PacketStore::new();
    store.add_packet("p".to_string(), i64::MIN);
    assert_eq!(store.load_packet(&"p".to_string(), 1), Err(PacketError::Overflow));
}

fn archive(files: &[(&str, &[u8])]) -> Vec<u8> {
    let mut builder = tar::Builder::new(Vec::new());
    for (name, data) in files {
        let mut header = tar::Header::new_gnu();
        header.set_size(data.len() as u64);
        header.set_mode(0o644);
        header.set_cksum();
        builder.append_data(&mut header, name, *data).unwrap();
    }
    let mut dir = tar::Header::new_gnu();
    dir.set_entry_type(tar::EntryType::Directory);
    dir.set_size(0);
    dir.set_mode(0o755);
    dir.set_cksum();
    builder.append_data(&mut dir, "folder/", std::io::empty()).unwrap();
    builder.into_inner().unwrap()
}

#[test]
fn tar_files_are_counted_and_sized() {
    let bytes = archive(&[("a.txt", b"hello"), ("b.txt", b"world!!")]);
    assert_eq!(num_files(&bytes), Ok(2));
    assert_eq!(size_files(&bytes), Ok(12));
}

#[test]
fn empty_tar_has_no_files() {
    let bytes = archive(&[]);
    assert_eq!(num_files(&bytes), Ok(0));
    assert_eq!(size_files(&bytes), Ok(0));
    let _ = ArchiveError::Unreadable;
}

#[test]
fn magic_red_pixels_are_counted() {
    let px = [200u8, 100, 99, 200, 100, 100, 255, 0, 0, 10, 255, 255];
    assert_eq!(count_magic_red(&px), 2);
}

fn png(w: u32, h: u32, px: Vec<u8>) -> Vec<u8> {
    let img = image::RgbImage::from_raw(w, h, px).unwrap();
    let mut out = std::io::Cursor::new(Vec::new());
    image::DynamicImage::ImageRgb8(img).write_to(&mut out, image::ImageOutputFormat::Png).unwrap();
    out.into_inner()
}

#[test]
fn png_red_pixels_are_counted() {
    let bytes = png(2, 2, vec![200, 100, 99, 200, 100, 100, 255, 0, 0, 10, 255, 255]);
    assert_eq!(num_red_pixels(&bytes), Ok(2));
}

#[test]
fn non_png_is_refused() {
    assert_eq!(num_red_pixels(b"not an image"), Err(PixelError::NotRgbPng));
}

fn row(region: &str, gift: &str, rank: i64) -> cch_rooms::topgifts::RankRow {
    cch_rooms::topgifts::RankRow { region_name: region.to_string(), gift_name: gift.to_string(), rank }
}

#[test]
fn top_gifts_are_grouped_and_ordered() {
    let rows = vec![row("North", "toy", 2), row("North", "ball", 1), row("South", "doll", 1), row("North", "kite", 2)];
    let regions = vec!["South".to_string(), "North".to_string(), "East".to_string()];
    let list = cch_rooms::topgifts::top_list(&rows, &regions);
    let shown: Vec<(String, Vec<String>)> = list.into_iter().map(|t| (t.region, t.top_gifts)).collect();
    assert_eq!(
        shown,
        vec![
            ("East".to_string(), vec![]),
            ("North".to_string(), vec!["ball".to_string(), "toy".to_string(), "kite".to_string()]),
            ("South".to_string(), vec!["doll".to_string()]),
        ]
    );
}

#[test]
fn region_names_sort_prefix_first() {
    let regions = vec!["North".to_string(), "Nor".to_string(), "Norway".to_string()];
    let list = cch_rooms::topgifts::top_list(&Vec::new(), &regions);
    let names: Vec<String> = list.into_iter().map(|t| t.region).collect();
    assert_eq!(names, vec!["Nor", "North", "Norway"]);
}
