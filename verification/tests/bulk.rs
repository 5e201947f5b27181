use writing::text::{safe_byte_pos, char_to_byte, find_line_bounds, find_para_bounds};
use writing::writer::Writer;

fn writer_with(text: &str) -> Writer {
    let mut w = Writer::new_with(true, None, Vec::new());
    w.tabs[0].text = text.to_string();
    w
}

#[test]
fn t261_sb_1() {
                let s = "test";
                let p = safe_byte_pos(s, (0));
                assert!(s.is_char_boundary(p));
                assert!(p <= s.len());
            }

#[test]
fn t262_sb_2() {
                let s = "test";
                let p = safe_byte_pos(s, (1));
                assert!(s.is_char_boundary(p));
                assert!(p <= s.len());
            }

#[test]
fn t263_sb_3() {
                let s = "test";
                let p = safe_byte_pos(s, (2));
                assert!(s.is_char_boundary(p));
                assert!(p <= s.len());
            }

#[test]
fn t264_sb_4() {
                let s = "test";
                let p = safe_byte_pos(s, (3));
                assert!(s.is_char_boundary(p));
                assert!(p <= s.len());
            }

#[test]
fn t265_sb_5() {
                let s = "test";
                let p = safe_byte_pos(s, (4));
                assert!(s.is_char_boundary(p));
                assert!(p <= s.len());
            }

#[test]
fn t266_sb_6() {
                let s = "한글테스트";
                let p = safe_byte_pos(s, (0));
                assert!(s.is_char_boundary(p));
                assert!(p <= s.len());
            }

#[test]
fn t267_sb_7() {
                let s = "한글테스트";
                let p = safe_byte_pos(s, (1));
                assert!(s.is_char_boundary(p));
                assert!(p <= s.len());
            }

#[test]
fn t268_sb_8() {
                let s = "한글테스트";
                let p = safe_byte_pos(s, (2));
                assert!(s.is_char_boundary(p));
                assert!(p <= s.len());
            }

#[test]
fn t269_sb_9() {
                let s = "한글테스트";
                let p = safe_byte_pos(s, (3));
                assert!(s.is_char_boundary(p));
                assert!(p <= s.len());
            }

#[test]
fn t270_sb_10() {
                let s = "한글테스트";
                let p = safe_byte_pos(s, (4));
                assert!(s.is_char_boundary(p));
                assert!(p <= s.len());
            }

#[test]
fn t271_sb_11() {
                let s = "한글테스트";
                let p = safe_byte_pos(s, (5));
                assert!(s.is_char_boundary(p));
                assert!(p <= s.len());
            }

#[test]
fn t272_sb_12() {
                let s = "한글테스트";
                let p = safe_byte_pos(s, (6));
                assert!(s.is_char_boundary(p));
                assert!(p <= s.len());
            }

#[test]
fn t273_sb_13() {
                let s = "한글테스트";
                let p = safe_byte_pos(s, (7));
                assert!(s.is_char_boundary(p));
                assert!(p <= s.len());
            }

#[test]
fn t274_sb_14() {
                let s = "한글테스트";
                let p = safe_byte_pos(s, (8));
                assert!(s.is_char_boundary(p));
                assert!(p <= s.len());
            }

#[test]
fn t275_sb_15() {
                let s = "한글테스트";
                let p = safe_byte_pos(s, (9));
                assert!(s.is_char_boundary(p));
                assert!(p <= s.len());
            }

#[test]
fn t276_sb_16() {
                let s = "한글테스트";
                let p = safe_byte_pos(s, (10));
                assert!(s.is_char_boundary(p));
                assert!(p <= s.len());
            }

#[test]
fn t277_sb_17() {
                let s = "한글테스트";
                let p = safe_byte_pos(s, (11));
                assert!(s.is_char_boundary(p));
                assert!(p <= s.len());
            }

#[test]
fn t278_sb_18() {
                let s = "한글테스트";
                let p = safe_byte_pos(s, (12));
                assert!(s.is_char_boundary(p));
                assert!(p <= s.len());
            }

#[test]
fn t279_sb_19() {
                let s = "한글테스트";
                let p = safe_byte_pos(s, (13));
                assert!(s.is_char_boundary(p));
                assert!(p <= s.len());
            }

#[test]
fn t280_sb_20() {
                let s = "한글테스트";
                let p = safe_byte_pos(s, (14));
                assert!(s.is_char_boundary(p));
                assert!(p <= s.len());
            }

#[test]
fn t281_sb_21() {
                let s = "한글테스트";
                let p = safe_byte_pos(s, (15));
                assert!(s.is_char_boundary(p));
                assert!(p <= s.len());
            }

#[test]
fn t282_sb_22() {
                let s = "a😀b";
                let p = safe_byte_pos(s, (0));
                assert!(s.is_char_boundary(p));
                assert!(p <= s.len());
            }

#[test]
fn t283_sb_23() {
                let s = "a😀b";
                let p = safe_byte_pos(s, (1));
                assert!(s.is_char_boundary(p));
                assert!(p <= s.len());
            }

#[test]
fn t284_sb_24() {
                let s = "a😀b";
                let p = safe_byte_pos(s, (2));
                assert!(s.is_char_boundary(p));
                assert!(p <= s.len());
            }

#[test]
fn t285_sb_25() {
                let s = "a😀b";
                let p = safe_byte_pos(s, (3));
                assert!(s.is_char_boundary(p));
                assert!(p <= s.len());
            }

#[test]
fn t286_sb_26() {
                let s = "a😀b";
                let p = safe_byte_pos(s, (4));
                assert!(s.is_char_boundary(p));
                assert!(p <= s.len());
            }

#[test]
fn t287_sb_27() {
                let s = "a😀b";
                let p = safe_byte_pos(s, (5));
                assert!(s.is_char_boundary(p));
                assert!(p <= s.len());
            }

#[test]
fn t288_sb_28() {
                let s = "a😀b";
                let p = safe_byte_pos(s, (6));
                assert!(s.is_char_boundary(p));
                assert!(p <= s.len());
            }

#[test]
fn t289_sb_29() {
                let s = "mixed한글abc";
                let p = safe_byte_pos(s, (0));
                assert!(s.is_char_boundary(p));
                assert!(p <= s.len());
            }

#[test]
fn t290_sb_30() {
                let s = "mixed한글abc";
                let p = safe_byte_pos(s, (5));
                assert!(s.is_char_boundary(p));
                assert!(p <= s.len());
            }

#[test]
fn t291_sb_31() {
                let s = "mixed한글abc";
                let p = safe_byte_pos(s, (6));
                assert!(s.is_char_boundary(p));
                assert!(p <= s.len());
            }

#[test]
fn t292_sb_32() {
                let s = "mixed한글abc";
                let p = safe_byte_pos(s, (7));
                assert!(s.is_char_boundary(p));
                assert!(p <= s.len());
            }

#[test]
fn t293_sb_33() {
                let s = "mixed한글abc";
                let p = safe_byte_pos(s, (8));
                assert!(s.is_char_boundary(p));
                assert!(p <= s.len());
            }

#[test]
fn t294_sb_34() {
                let s = "mixed한글abc";
                let p = safe_byte_pos(s, (9));
                assert!(s.is_char_boundary(p));
                assert!(p <= s.len());
            }

#[test]
fn t295_sb_35() {
                let s = "mixed한글abc";
                let p = safe_byte_pos(s, (10));
                assert!(s.is_char_boundary(p));
                assert!(p <= s.len());
            }

#[test]
fn t296_sb_36() {
                let s = "mixed한글abc";
                let p = safe_byte_pos(s, (11));
                assert!(s.is_char_boundary(p));
                assert!(p <= s.len());
            }

#[test]
fn t297_sb_37() {
                let s = "mixed한글abc";
                let p = safe_byte_pos(s, (12));
                assert!(s.is_char_boundary(p));
                assert!(p <= s.len());
            }

#[test]
fn t298_sb_38() {
                let s = "mixed한글abc";
                let p = safe_byte_pos(s, (13));
                assert!(s.is_char_boundary(p));
                assert!(p <= s.len());
            }

#[test]
fn t299_sb_39() {
                let s = "mixed한글abc";
                let p = safe_byte_pos(s, (14));
                assert!(s.is_char_boundary(p));
                assert!(p <= s.len());
            }

#[test]
fn t300_sb_40() {
                let s = "";
                let p = safe_byte_pos(s, (0));
                assert!(s.is_char_boundary(p));
                assert!(p <= s.len());
            }

#[test]
fn t301_lb_1() {
                let s: &str = "hello\nworld";
                let p = safe_byte_pos(s, (0));
                let (start, end) = find_line_bounds(s, p);
                assert!(start <= end);
                assert!(end <= s.len());
                assert!(!s[start..end].contains('\n') || s[start..end].is_empty());
            }

#[test]
fn t302_lb_2() {
                let s: &str = "hello\nworld";
                let p = safe_byte_pos(s, (3));
                let (start, end) = find_line_bounds(s, p);
                assert!(start <= end);
                assert!(end <= s.len());
                assert!(!s[start..end].contains('\n') || s[start..end].is_empty());
            }

#[test]
fn t303_lb_3() {
                let s: &str = "hello\nworld";
                let p = safe_byte_pos(s, (5));
                let (start, end) = find_line_bounds(s, p);
                assert!(start <= end);
                assert!(end <= s.len());
                assert!(!s[start..end].contains('\n') || s[start..end].is_empty());
            }

#[test]
fn t304_lb_4() {
                let s: &str = "hello\nworld";
                let p = safe_byte_pos(s, (6));
                let (start, end) = find_line_bounds(s, p);
                assert!(start <= end);
                assert!(end <= s.len());
                assert!(!s[start..end].contains('\n') || s[start..end].is_empty());
            }

#[test]
fn t305_lb_5() {
                let s: &str = "hello\nworld";
                let p = safe_byte_pos(s, (9));
                let (start, end) = find_line_bounds(s, p);
                assert!(start <= end);
                assert!(end <= s.len());
                assert!(!s[start..end].contains('\n') || s[start..end].is_empty());
            }

#[test]
fn t306_lb_6() {
                let s: &str = "a\nb\nc\nd\ne";
                let p = safe_byte_pos(s, (0));
                let (start, end) = find_line_bounds(s, p);
                assert!(start <= end);
                assert!(end <= s.len());
                assert!(!s[start..end].contains('\n') || s[start..end].is_empty());
            }

#[test]
fn t307_lb_7() {
                let s: &str = "a\nb\nc\nd\ne";
                let p = safe_byte_pos(s, (2));
                let (start, end) = find_line_bounds(s, p);
                assert!(start <= end);
                assert!(end <= s.len());
                assert!(!s[start..end].contains('\n') || s[start..end].is_empty());
            }

#[test]
fn t308_lb_8() {
                let s: &str = "a\nb\nc\nd\ne";
                let p = safe_byte_pos(s, (4));
                let (start, end) = find_line_bounds(s, p);
                assert!(start <= end);
                assert!(end <= s.len());
                assert!(!s[start..end].contains('\n') || s[start..end].is_empty());
            }

#[test]
fn t309_lb_9() {
                let s: &str = "a\nb\nc\nd\ne";
                let p = safe_byte_pos(s, (6));
                let (start, end) = find_line_bounds(s, p);
                assert!(start <= end);
                assert!(end <= s.len());
                assert!(!s[start..end].contains('\n') || s[start..end].is_empty());
            }

#[test]
fn t310_lb_10() {
                let s: &str = "a\nb\nc\nd\ne";
                let p = safe_byte_pos(s, (8));
                let (start, end) = find_line_bounds(s, p);
                assert!(start <= end);
                assert!(end <= s.len());
                assert!(!s[start..end].contains('\n') || s[start..end].is_empty());
            }

#[test]
fn t311_lb_11() {
                let s: &str = "single";
                let p = safe_byte_pos(s, (0));
                let (start, end) = find_line_bounds(s, p);
                assert!(start <= end);
                assert!(end <= s.len());
                assert!(!s[start..end].contains('\n') || s[start..end].is_empty());
            }

#[test]
fn t312_lb_12() {
                let s: &str = "single";
                let p = safe_byte_pos(s, (3));
                let (start, end) = find_line_bounds(s, p);
                assert!(start <= end);
                assert!(end <= s.len());
                assert!(!s[start..end].contains('\n') || s[start..end].is_empty());
            }

#[test]
fn t313_lb_13() {
                let s: &str = "single";
                let p = safe_byte_pos(s, (6));
                let (start, end) = find_line_bounds(s, p);
                assert!(start <= end);
                assert!(end <= s.len());
                assert!(!s[start..end].contains('\n') || s[start..end].is_empty());
            }

#[test]
fn t314_lb_14() {
                let s: &str = "";
                let p = safe_byte_pos(s, (0));
                let (start, end) = find_line_bounds(s, p);
                assert!(start <= end);
                assert!(end <= s.len());
                assert!(!s[start..end].contains('\n') || s[start..end].is_empty());
            }

#[test]
fn t315_lb_15() {
                let s: &str = "\n";
                let p = safe_byte_pos(s, (0));
                let (start, end) = find_line_bounds(s, p);
                assert!(start <= end);
                assert!(end <= s.len());
                assert!(!s[start..end].contains('\n') || s[start..end].is_empty());
            }

#[test]
fn t316_lb_16() {
                let s: &str = "\n";
                let p = safe_byte_pos(s, (1));
                let (start, end) = find_line_bounds(s, p);
                assert!(start <= end);
                assert!(end <= s.len());
                assert!(!s[start..end].contains('\n') || s[start..end].is_empty());
            }

#[test]
fn t317_lb_17() {
                let s: &str = "\n\n";
                let p = safe_byte_pos(s, (0));
                let (start, end) = find_line_bounds(s, p);
                assert!(start <= end);
                assert!(end <= s.len());
                assert!(!s[start..end].contains('\n') || s[start..end].is_empty());
            }

#[test]
fn t318_lb_18() {
                let s: &str = "\n\n";
                let p = safe_byte_pos(s, (1));
                let (start, end) = find_line_bounds(s, p);
                assert!(start <= end);
                assert!(end <= s.len());
                assert!(!s[start..end].contains('\n') || s[start..end].is_empty());
            }

#[test]
fn t319_lb_19() {
                let s: &str = "\n\n";
                let p = safe_byte_pos(s, (2));
                let (start, end) = find_line_bounds(s, p);
                assert!(start <= end);
                assert!(end <= s.len());
                assert!(!s[start..end].contains('\n') || s[start..end].is_empty());
            }

#[test]
fn t320_lb_20() {
                let s: &str = "한글\n테스트";
                let p = safe_byte_pos(s, (0));
                let (start, end) = find_line_bounds(s, p);
                assert!(start <= end);
                assert!(end <= s.len());
                assert!(!s[start..end].contains('\n') || s[start..end].is_empty());
            }

#[test]
fn t321_lb_21() {
                let s: &str = "한글\n테스트";
                let p = safe_byte_pos(s, (3));
                let (start, end) = find_line_bounds(s, p);
                assert!(start <= end);
                assert!(end <= s.len());
                assert!(!s[start..end].contains('\n') || s[start..end].is_empty());
            }

#[test]
fn t322_lb_22() {
                let s: &str = "한글\n테스트";
                let p = safe_byte_pos(s, (6));
                let (start, end) = find_line_bounds(s, p);
                assert!(start <= end);
                assert!(end <= s.len());
                assert!(!s[start..end].contains('\n') || s[start..end].is_empty());
            }

#[test]
fn t323_lb_23() {
                let s: &str = "한글\n테스트";
                let p = safe_byte_pos(s, (7));
                let (start, end) = find_line_bounds(s, p);
                assert!(start <= end);
                assert!(end <= s.len());
                assert!(!s[start..end].contains('\n') || s[start..end].is_empty());
            }

#[test]
fn t324_lb_24() {
                let s: &str = "한글\n테스트";
                let p = safe_byte_pos(s, (10));
                let (start, end) = find_line_bounds(s, p);
                assert!(start <= end);
                assert!(end <= s.len());
                assert!(!s[start..end].contains('\n') || s[start..end].is_empty());
            }

#[test]
fn t325_lb_25() {
                let s: &str = "line1\nline2\nline3\nline4\nline5";
                let p = safe_byte_pos(s, (0));
                let (start, end) = find_line_bounds(s, p);
                assert!(start <= end);
                assert!(end <= s.len());
                assert!(!s[start..end].contains('\n') || s[start..end].is_empty());
            }

#[test]
fn t326_lb_26() {
                let s: &str = "line1\nline2\nline3\nline4\nline5";
                let p = safe_byte_pos(s, (6));
                let (start, end) = find_line_bounds(s, p);
                assert!(start <= end);
                assert!(end <= s.len());
                assert!(!s[start..end].contains('\n') || s[start..end].is_empty());
            }

#[test]
fn t327_lb_27() {
                let s: &str = "line1\nline2\nline3\nline4\nline5";
                let p = safe_byte_pos(s, (12));
                let (start, end) = find_line_bounds(s, p);
                assert!(start <= end);
                assert!(end <= s.len());
                assert!(!s[start..end].contains('\n') || s[start..end].is_empty());
            }

#[test]
fn t328_lb_28() {
                let s: &str = "line1\nline2\nline3\nline4\nline5";
                let p = safe_byte_pos(s, (18));
                let (start, end) = find_line_bounds(s, p);
                assert!(start <= end);
                assert!(end <= s.len());
                assert!(!s[start..end].contains('\n') || s[start..end].is_empty());
            }

#[test]
fn t329_lb_29() {
                let s: &str = "line1\nline2\nline3\nline4\nline5";
                let p = safe_byte_pos(s, (24));
                let (start, end) = find_line_bounds(s, p);
                assert!(start <= end);
                assert!(end <= s.len());
                assert!(!s[start..end].contains('\n') || s[start..end].is_empty());
            }

#[test]
fn t330_lb_30() {
                let s: &str = "abc def\nghi jkl\nmno pqr";
                let p = safe_byte_pos(s, (0));
                let (start, end) = find_line_bounds(s, p);
                assert!(start <= end);
                assert!(end <= s.len());
                assert!(!s[start..end].contains('\n') || s[start..end].is_empty());
            }

#[test]
fn t331_lb_31() {
                let s: &str = "abc def\nghi jkl\nmno pqr";
                let p = safe_byte_pos(s, (5));
                let (start, end) = find_line_bounds(s, p);
                assert!(start <= end);
                assert!(end <= s.len());
                assert!(!s[start..end].contains('\n') || s[start..end].is_empty());
            }

#[test]
fn t332_lb_32() {
                let s: &str = "abc def\nghi jkl\nmno pqr";
                let p = safe_byte_pos(s, (8));
                let (start, end) = find_line_bounds(s, p);
                assert!(start <= end);
                assert!(end <= s.len());
                assert!(!s[start..end].contains('\n') || s[start..end].is_empty());
            }

#[test]
fn t333_lb_33() {
                let s: &str = "abc def\nghi jkl\nmno pqr";
                let p = safe_byte_pos(s, (14));
                let (start, end) = find_line_bounds(s, p);
                assert!(start <= end);
                assert!(end <= s.len());
                assert!(!s[start..end].contains('\n') || s[start..end].is_empty());
            }

#[test]
fn t334_lb_34() {
                let s: &str = "abc def\nghi jkl\nmno pqr";
                let p = safe_byte_pos(s, (16));
                let (start, end) = find_line_bounds(s, p);
                assert!(start <= end);
                assert!(end <= s.len());
                assert!(!s[start..end].contains('\n') || s[start..end].is_empty());
            }

#[test]
fn t335_lb_35() {
                let s: &str = "abc def\nghi jkl\nmno pqr";
                let p = safe_byte_pos(s, (22));
                let (start, end) = find_line_bounds(s, p);
                assert!(start <= end);
                assert!(end <= s.len());
                assert!(!s[start..end].contains('\n') || s[start..end].is_empty());
            }

#[test]
fn t336_pb_1() {
                let s: &str = "para1\n\npara2";
                let p = safe_byte_pos(s, (0));
                let (start, end) = find_para_bounds(s, p);
                assert!(start <= end);
                assert!(end <= s.len());
            }

#[test]
fn t337_pb_2() {
                let s: &str = "para1\n\npara2";
                let p = safe_byte_pos(s, (3));
                let (start, end) = find_para_bounds(s, p);
                assert!(start <= end);
                assert!(end <= s.len());
            }

#[test]
fn t338_pb_3() {
                let s: &str = "para1\n\npara2";
                let p = safe_byte_pos(s, (5));
                let (start, end) = find_para_bounds(s, p);
                assert!(start <= end);
                assert!(end <= s.len());
            }

#[test]
fn t339_pb_4() {
                let s: &str = "para1\n\npara2";
                let p = safe_byte_pos(s, (7));
                let (start, end) = find_para_bounds(s, p);
                assert!(start <= end);
                assert!(end <= s.len());
            }

#[test]
fn t340_pb_5() {
                let s: &str = "para1\n\npara2";
                let p = safe_byte_pos(s, (10));
                let (start, end) = find_para_bounds(s, p);
                assert!(start <= end);
                assert!(end <= s.len());
            }

#[test]
fn t341_pb_6() {
                let s: &str = "a\n\nb\n\nc";
                let p = safe_byte_pos(s, (0));
                let (start, end) = find_para_bounds(s, p);
                assert!(start <= end);
                assert!(end <= s.len());
            }

#[test]
fn t342_pb_7() {
                let s: &str = "a\n\nb\n\nc";
                let p = safe_byte_pos(s, (3));
                let (start, end) = find_para_bounds(s, p);
                assert!(start <= end);
                assert!(end <= s.len());
            }

#[test]
fn t343_pb_8() {
                let s: &str = "a\n\nb\n\nc";
                let p = safe_byte_pos(s, (5));
                let (start, end) = find_para_bounds(s, p);
                assert!(start <= end);
                assert!(end <= s.len());
            }

#[test]
fn t344_pb_9() {
                let s: &str = "a\n\nb\n\nc";
                let p = safe_byte_pos(s, (6));
                let (start, end) = find_para_bounds(s, p);
                assert!(start <= end);
                assert!(end <= s.len());
            }

#[test]
fn t345_pb_10() {
                let s: &str = "hello";
                let p = safe_byte_pos(s, (0));
                let (start, end) = find_para_bounds(s, p);
                assert!(start <= end);
                assert!(end <= s.len());
            }

#[test]
fn t346_pb_11() {
                let s: &str = "hello";
                let p = safe_byte_pos(s, (3));
                let (start, end) = find_para_bounds(s, p);
                assert!(start <= end);
                assert!(end <= s.len());
            }

#[test]
fn t347_pb_12() {
                let s: &str = "hello";
                let p = safe_byte_pos(s, (5));
                let (start, end) = find_para_bounds(s, p);
                assert!(start <= end);
                assert!(end <= s.len());
            }

#[test]
fn t348_pb_13() {
                let s: &str = "";
                let p = safe_byte_pos(s, (0));
                let (start, end) = find_para_bounds(s, p);
                assert!(start <= end);
                assert!(end <= s.len());
            }

#[test]
fn t349_pb_14() {
                let s: &str = "\n\n";
                let p = safe_byte_pos(s, (0));
                let (start, end) = find_para_bounds(s, p);
                assert!(start <= end);
                assert!(end <= s.len());
            }

#[test]
fn t350_pb_15() {
                let s: &str = "\n\n";
                let p = safe_byte_pos(s, (1));
                let (start, end) = find_para_bounds(s, p);
                assert!(start <= end);
                assert!(end <= s.len());
            }

#[test]
fn t351_pb_16() {
                let s: &str = "\n\n";
                let p = safe_byte_pos(s, (2));
                let (start, end) = find_para_bounds(s, p);
                assert!(start <= end);
                assert!(end <= s.len());
            }

#[test]
fn t352_pb_17() {
                let s: &str = "한글\n\n테스트";
                let p = safe_byte_pos(s, (0));
                let (start, end) = find_para_bounds(s, p);
                assert!(start <= end);
                assert!(end <= s.len());
            }

#[test]
fn t353_pb_18() {
                let s: &str = "한글\n\n테스트";
                let p = safe_byte_pos(s, (6));
                let (start, end) = find_para_bounds(s, p);
                assert!(start <= end);
                assert!(end <= s.len());
            }

#[test]
fn t354_pb_19() {
                let s: &str = "한글\n\n테스트";
                let p = safe_byte_pos(s, (8));
                let (start, end) = find_para_bounds(s, p);
                assert!(start <= end);
                assert!(end <= s.len());
            }

#[test]
fn t355_pb_20() {
                let s: &str = "a\n\nb\n\nc\n\nd\n\ne";
                let p = safe_byte_pos(s, (0));
                let (start, end) = find_para_bounds(s, p);
                assert!(start <= end);
                assert!(end <= s.len());
            }

#[test]
fn t356_pb_21() {
                let s: &str = "a\n\nb\n\nc\n\nd\n\ne";
                let p = safe_byte_pos(s, (3));
                let (start, end) = find_para_bounds(s, p);
                assert!(start <= end);
                assert!(end <= s.len());
            }

#[test]
fn t357_pb_22() {
                let s: &str = "a\n\nb\n\nc\n\nd\n\ne";
                let p = safe_byte_pos(s, (6));
                let (start, end) = find_para_bounds(s, p);
                assert!(start <= end);
                assert!(end <= s.len());
            }

#[test]
fn t358_pb_23() {
                let s: &str = "a\n\nb\n\nc\n\nd\n\ne";
                let p = safe_byte_pos(s, (9));
                let (start, end) = find_para_bounds(s, p);
                assert!(start <= end);
                assert!(end <= s.len());
            }

#[test]
fn t359_pb_24() {
                let s: &str = "a\n\nb\n\nc\n\nd\n\ne";
                let p = safe_byte_pos(s, (12));
                let (start, end) = find_para_bounds(s, p);
                assert!(start <= end);
                assert!(end <= s.len());
            }

#[test]
fn t360_pb_25() {
                let s: &str = "long para with many words here\n\nsecond para also long";
                let p = safe_byte_pos(s, (15));
                let (start, end) = find_para_bounds(s, p);
                assert!(start <= end);
                assert!(end <= s.len());
            }

#[test]
fn t361_cnt_1() {
                let w = writer_with("");
                assert_eq!(w.word_count(), (0), "word count");
                assert_eq!(w.char_count(), (0), "char count");
                assert_eq!(w.line_count(), (1), "line count");
            }

#[test]
fn t362_cnt_2() {
                let w = writer_with("a");
                assert_eq!(w.word_count(), (1), "word count");
                assert_eq!(w.char_count(), (1), "char count");
                assert_eq!(w.line_count(), (1), "line count");
            }

#[test]
fn t363_cnt_3() {
                let w = writer_with("ab");
                assert_eq!(w.word_count(), (1), "word count");
                assert_eq!(w.char_count(), (2), "char count");
                assert_eq!(w.line_count(), (1), "line count");
            }

#[test]
fn t364_cnt_4() {
                let w = writer_with("a b");
                assert_eq!(w.word_count(), (2), "word count");
                assert_eq!(w.char_count(), (3), "char count");
                assert_eq!(w.line_count(), (1), "line count");
            }

#[test]
fn t365_cnt_5() {
                let w = writer_with("a b c");
                assert_eq!(w.word_count(), (3), "word count");
                assert_eq!(w.char_count(), (5), "char count");
                assert_eq!(w.line_count(), (1), "line count");
            }

#[test]
fn t366_cnt_6() {
                let w = writer_with("a\nb");
                assert_eq!(w.word_count(), (2), "word count");
                assert_eq!(w.char_count(), (3), "char count");
                assert_eq!(w.line_count(), (2), "line count");
            }

#[test]
fn t367_cnt_7() {
                let w = writer_with("a\nb\nc");
                assert_eq!(w.word_count(), (3), "word count");
                assert_eq!(w.char_count(), (5), "char count");
                assert_eq!(w.line_count(), (3), "line count");
            }

#[test]
fn t368_cnt_8() {
                let w = writer_with(" ");
                assert_eq!(w.word_count(), (0), "word count");
                assert_eq!(w.char_count(), (1), "char count");
                assert_eq!(w.line_count(), (1), "line count");
            }

#[test]
fn t369_cnt_9() {
                let w = writer_with("  ");
                assert_eq!(w.word_count(), (0), "word count");
                assert_eq!(w.char_count(), (2), "char count");
                assert_eq!(w.line_count(), (1), "line count");
            }

#[test]
fn t370_cnt_10() {
                let w = writer_with("\n");
                assert_eq!(w.word_count(), (0), "word count");
                assert_eq!(w.char_count(), (1), "char count");
                assert_eq!(w.line_count(), (1), "line count");
            }

#[test]
fn t371_cnt_11() {
                let w = writer_with("\n\n");
                assert_eq!(w.word_count(), (0), "word count");
                assert_eq!(w.char_count(), (2), "char count");
                assert_eq!(w.line_count(), (2), "line count");
            }

#[test]
fn t372_cnt_12() {
                let w = writer_with("hello world");
                assert_eq!(w.word_count(), (2), "word count");
                assert_eq!(w.char_count(), (11), "char count");
                assert_eq!(w.line_count(), (1), "line count");
            }

#[test]
fn t373_cnt_13() {
                let w = writer_with("hello\nworld");
                assert_eq!(w.word_count(), (2), "word count");
                assert_eq!(w.char_count(), (11), "char count");
                assert_eq!(w.line_count(), (2), "line count");
            }

#[test]
fn t374_cnt_14() {
                let w = writer_with("가");
                assert_eq!(w.word_count(), (1), "word count");
                assert_eq!(w.char_count(), (1), "char count");
                assert_eq!(w.line_count(), (1), "line count");
            }

#[test]
fn t375_cnt_15() {
                let w = writer_with("가 나");
                assert_eq!(w.word_count(), (2), "word count");
                assert_eq!(w.char_count(), (3), "char count");
                assert_eq!(w.line_count(), (1), "line count");
            }

#[test]
fn t376_cnt_16() {
                let w = writer_with("가\n나");
                assert_eq!(w.word_count(), (2), "word count");
                assert_eq!(w.char_count(), (3), "char count");
                assert_eq!(w.line_count(), (2), "line count");
            }

#[test]
fn t377_cnt_17() {
                let w = writer_with("The quick brown fox");
                assert_eq!(w.word_count(), (4), "word count");
                assert_eq!(w.char_count(), (19), "char count");
                assert_eq!(w.line_count(), (1), "line count");
            }

#[test]
fn t378_cnt_18() {
                let w = writer_with("Line 1\nLine 2\nLine 3");
                assert_eq!(w.word_count(), (6), "word count");
                assert_eq!(w.char_count(), (20), "char count");
                assert_eq!(w.line_count(), (3), "line count");
            }

#[test]
fn t379_cnt_19() {
                let w = writer_with("😀");
                assert_eq!(w.word_count(), (1), "word count");
                assert_eq!(w.char_count(), (1), "char count");
                assert_eq!(w.line_count(), (1), "line count");
            }

#[test]
fn t380_cnt_20() {
                let w = writer_with("😀😁");
                assert_eq!(w.word_count(), (1), "word count");
                assert_eq!(w.char_count(), (2), "char count");
                assert_eq!(w.line_count(), (1), "line count");
            }

#[test]
fn t381_cnt_21() {
                let w = writer_with("😀 😁");
                assert_eq!(w.word_count(), (2), "word count");
                assert_eq!(w.char_count(), (3), "char count");
                assert_eq!(w.line_count(), (1), "line count");
            }

#[test]
fn t382_cnt_22() {
                let w = writer_with("a\n\nb");
                assert_eq!(w.word_count(), (2), "word count");
                assert_eq!(w.char_count(), (4), "char count");
                assert_eq!(w.line_count(), (3), "line count");
            }

#[test]
fn t383_cnt_23() {
                let w = writer_with("test\n\n\ntest");
                assert_eq!(w.word_count(), (2), "word count");
                assert_eq!(w.char_count(), (11), "char count");
                assert_eq!(w.line_count(), (4), "line count");
            }

#[test]
fn t384_cnt_24() {
                let w = writer_with("one two\nthree four\nfive");
                assert_eq!(w.word_count(), (5), "word count");
                assert_eq!(w.char_count(), (23), "char count");
                assert_eq!(w.line_count(), (3), "line count");
            }

#[test]
fn t385_cnt_25() {
                let w = writer_with("안녕하세요");
                assert_eq!(w.word_count(), (1), "word count");
                assert_eq!(w.char_count(), (5), "char count");
                assert_eq!(w.line_count(), (1), "line count");
            }

#[test]
fn t386_cnt_26() {
                let w = writer_with("Hello 안녕");
                assert_eq!(w.word_count(), (2), "word count");
                assert_eq!(w.char_count(), (8), "char count");
                assert_eq!(w.line_count(), (1), "line count");
            }

#[test]
fn t387_cnt_27() {
                let w = writer_with("a b c d e f g h i j");
                assert_eq!(w.word_count(), (10), "word count");
                assert_eq!(w.char_count(), (19), "char count");
                assert_eq!(w.line_count(), (1), "line count");
            }

#[test]
fn t388_cnt_28() {
                let w = writer_with("1\n2\n3\n4\n5");
                assert_eq!(w.word_count(), (5), "word count");
                assert_eq!(w.char_count(), (9), "char count");
                assert_eq!(w.line_count(), (5), "line count");
            }

#[test]
fn t389_cnt_29() {
                let w = writer_with("word");
                assert_eq!(w.word_count(), (1), "word count");
                assert_eq!(w.char_count(), (4), "char count");
                assert_eq!(w.line_count(), (1), "line count");
            }

#[test]
fn t390_cnt_30() {
                let w = writer_with("  word  ");
                assert_eq!(w.word_count(), (1), "word count");
                assert_eq!(w.char_count(), (8), "char count");
                assert_eq!(w.line_count(), (1), "line count");
            }

#[test]
fn t391_fc_1() {
                let mut w = writer_with("aaa");
                w.find_text = ("a").into();
                w.update_find_count();
                assert_eq!(w.find_count, (3));
            }

#[test]
fn t392_fc_2() {
                let mut w = writer_with("aaa");
                w.find_text = ("aa").into();
                w.update_find_count();
                assert_eq!(w.find_count, (1));
            }

#[test]
fn t393_fc_3() {
                let mut w = writer_with("abcabc");
                w.find_text = ("abc").into();
                w.update_find_count();
                assert_eq!(w.find_count, (2));
            }

#[test]
fn t394_fc_4() {
                let mut w = writer_with("hello");
                w.find_text = ("x").into();
                w.update_find_count();
                assert_eq!(w.find_count, (0));
            }

#[test]
fn t395_fc_5() {
                let mut w = writer_with("");
                w.find_text = ("a").into();
                w.update_find_count();
                assert_eq!(w.find_count, (0));
            }

#[test]
fn t396_fc_6() {
                let mut w = writer_with("HELLO hello Hello");
                w.find_text = ("hello").into();
                w.update_find_count();
                assert_eq!(w.find_count, (3));
            }

#[test]
fn t397_fc_7() {
                let mut w = writer_with("a b c");
                w.find_text = (" ").into();
                w.update_find_count();
                assert_eq!(w.find_count, (2));
            }

#[test]
fn t398_fc_8() {
                let mut w = writer_with("a\nb\nc");
                w.find_text = ("\n").into();
                w.update_find_count();
                assert_eq!(w.find_count, (2));
            }

#[test]
fn t399_fc_9() {
                let mut w = writer_with("한글한글한글");
                w.find_text = ("한글").into();
                w.update_find_count();
                assert_eq!(w.find_count, (3));
            }

#[test]
fn t400_fc_10() {
                let mut w = writer_with("test test");
                w.find_text = ("test").into();
                w.update_find_count();
                assert_eq!(w.find_count, (2));
            }

#[test]
fn t401_fc_11() {
                let mut w = writer_with("aaaa");
                w.find_text = ("aa").into();
                w.update_find_count();
                assert_eq!(w.find_count, (2));
            }

#[test]
fn t402_fc_12() {
                let mut w = writer_with("Mississippi");
                w.find_text = ("ss").into();
                w.update_find_count();
                assert_eq!(w.find_count, (2));
            }

#[test]
fn t403_fc_13() {
                let mut w = writer_with("Mississippi");
                w.find_text = ("issi").into();
                w.update_find_count();
                assert_eq!(w.find_count, (1));
            }

#[test]
fn t404_fc_14() {
                let mut w = writer_with("one TWO three");
                w.find_text = ("two").into();
                w.update_find_count();
                assert_eq!(w.find_count, (1));
            }

#[test]
fn t405_fc_15() {
                let mut w = writer_with("😀😀😀");
                w.find_text = ("😀").into();
                w.update_find_count();
                assert_eq!(w.find_count, (3));
            }

#[test]
fn t406_fc_16() {
                let mut w = writer_with("line1\nline2\nline3");
                w.find_text = ("line").into();
                w.update_find_count();
                assert_eq!(w.find_count, (3));
            }

#[test]
fn t407_fc_17() {
                let mut w = writer_with("aAbBaAbB");
                w.find_text = ("ab").into();
                w.update_find_count();
                assert_eq!(w.find_count, (2));
            }

#[test]
fn t408_fc_18() {
                let mut w = writer_with("x");
                w.find_text = ("x").into();
                w.update_find_count();
                assert_eq!(w.find_count, (1));
            }

#[test]
fn t409_fc_19() {
                let mut w = writer_with("xx");
                w.find_text = ("x").into();
                w.update_find_count();
                assert_eq!(w.find_count, (2));
            }

#[test]
fn t410_fc_20() {
                let mut w = writer_with("xxx");
                w.find_text = ("x").into();
                w.update_find_count();
                assert_eq!(w.find_count, (3));
            }

#[test]
fn t411_ra_1() {
                let mut w = writer_with("aaa");
                w.find_text = ("a").into();
                w.replace_text = ("b").into();
                w.replace_all();
                assert_eq!(w.tabs[0].text, ("bbb"));
            }

#[test]
fn t412_ra_2() {
                let mut w = writer_with("hello world");
                w.find_text = ("world").into();
                w.replace_text = ("earth").into();
                w.replace_all();
                assert_eq!(w.tabs[0].text, ("hello earth"));
            }

#[test]
fn t413_ra_3() {
                let mut w = writer_with("abcabc");
                w.find_text = ("abc").into();
                w.replace_text = ("x").into();
                w.replace_all();
                assert_eq!(w.tabs[0].text, ("xx"));
            }

#[test]
fn t414_ra_4() {
                let mut w = writer_with("no match");
                w.find_text = ("xyz").into();
                w.replace_text = ("abc").into();
                w.replace_all();
                assert_eq!(w.tabs[0].text, ("no match"));
            }

#[test]
fn t415_ra_5() {
                let mut w = writer_with("AAA");
                w.find_text = ("aaa").into();
                w.replace_text = ("bbb").into();
                w.replace_all();
                assert_eq!(w.tabs[0].text, ("bbb"));
            }

#[test]
fn t416_ra_6() {
                let mut w = writer_with("a b c");
                w.find_text = (" ").into();
                w.replace_text = ("-").into();
                w.replace_all();
                assert_eq!(w.tabs[0].text, ("a-b-c"));
            }

#[test]
fn t417_ra_7() {
                let mut w = writer_with("hello");
                w.find_text = ("hello").into();
                w.replace_text = ("").into();
                w.replace_all();
                assert_eq!(w.tabs[0].text, (""));
            }

#[test]
fn t418_ra_8() {
                let mut w = writer_with("x");
                w.find_text = ("x").into();
                w.replace_text = ("yyy").into();
                w.replace_all();
                assert_eq!(w.tabs[0].text, ("yyy"));
            }

#[test]
fn t419_ra_9() {
                let mut w = writer_with("한글");
                w.find_text = ("한글").into();
                w.replace_text = ("영어").into();
                w.replace_all();
                assert_eq!(w.tabs[0].text, ("영어"));
            }

#[test]
fn t420_ra_10() {
                let mut w = writer_with("a\nb");
                w.find_text = ("\n").into();
                w.replace_text = (" ").into();
                w.replace_all();
                assert_eq!(w.tabs[0].text, ("a b"));
            }

#[test]
fn t421_ra_11() {
                let mut w = writer_with("aXbXc");
                w.find_text = ("x").into();
                w.replace_text = ("Y").into();
                w.replace_all();
                assert_eq!(w.tabs[0].text, ("aYbYc"));
            }

#[test]
fn t422_ra_12() {
                let mut w = writer_with("test");
                w.find_text = ("t").into();
                w.replace_text = ("T").into();
                w.replace_all();
                assert_eq!(w.tabs[0].text, ("TesT"));
            }

#[test]
fn t423_ra_13() {
                let mut w = writer_with("  ");
                w.find_text = (" ").into();
                w.replace_text = ("_").into();
                w.replace_all();
                assert_eq!(w.tabs[0].text, ("__"));
            }

#[test]
fn t424_ra_14() {
                let mut w = writer_with("123");
                w.find_text = ("1").into();
                w.replace_text = ("one").into();
                w.replace_all();
                assert_eq!(w.tabs[0].text, ("one23"));
            }

#[test]
fn t425_ra_15() {
                let mut w = writer_with("a😀b");
                w.find_text = ("😀").into();
                w.replace_text = ("!").into();
                w.replace_all();
                assert_eq!(w.tabs[0].text, ("a!b"));
            }

#[test]
fn t426_ra_16() {
                let mut w = writer_with("old old old");
                w.find_text = ("old").into();
                w.replace_text = ("new").into();
                w.replace_all();
                assert_eq!(w.tabs[0].text, ("new new new"));
            }

#[test]
fn t427_ra_17() {
                let mut w = writer_with("UPPER lower");
                w.find_text = ("upper").into();
                w.replace_text = ("CASE").into();
                w.replace_all();
                assert_eq!(w.tabs[0].text, ("CASE lower"));
            }

#[test]
fn t428_ra_18() {
                let mut w = writer_with("ab ab");
                w.find_text = ("ab").into();
                w.replace_text = ("abc").into();
                w.replace_all();
                assert_eq!(w.tabs[0].text, ("abc abc"));
            }

#[test]
fn t429_ra_19() {
                let mut w = writer_with("1-2-3");
                w.find_text = ("-").into();
                w.replace_text = ("+").into();
                w.replace_all();
                assert_eq!(w.tabs[0].text, ("1+2+3"));
            }

#[test]
fn t430_ra_20() {
                let mut w = writer_with("foo bar baz");
                w.find_text = ("bar").into();
                w.replace_text = ("BAR").into();
                w.replace_all();
                assert_eq!(w.tabs[0].text, ("foo BAR baz"));
            }

#[test]
fn t431_c2b_1() { assert_eq!(char_to_byte("hello", (0)), (0)); }

#[test]
fn t432_c2b_2() { assert_eq!(char_to_byte("hello", (1)), (1)); }

#[test]
fn t433_c2b_3() { assert_eq!(char_to_byte("hello", (5)), (5)); }

#[test]
fn t434_c2b_4() { assert_eq!(char_to_byte("한", (0)), (0)); }

#[test]
fn t435_c2b_5() { assert_eq!(char_to_byte("한", (1)), (3)); }

#[test]
fn t436_c2b_6() { assert_eq!(char_to_byte("한글", (0)), (0)); }

#[test]
fn t437_c2b_7() { assert_eq!(char_to_byte("한글", (1)), (3)); }

#[test]
fn t438_c2b_8() { assert_eq!(char_to_byte("한글", (2)), (6)); }

#[test]
fn t439_c2b_9() { assert_eq!(char_to_byte("a한b", (0)), (0)); }

#[test]
fn t440_c2b_10() { assert_eq!(char_to_byte("a한b", (1)), (1)); }

#[test]
fn t441_c2b_11() { assert_eq!(char_to_byte("a한b", (2)), (4)); }

#[test]
fn t442_c2b_12() { assert_eq!(char_to_byte("a한b", (3)), (5)); }

#[test]
fn t443_c2b_13() { assert_eq!(char_to_byte("😀", (0)), (0)); }

#[test]
fn t444_c2b_14() { assert_eq!(char_to_byte("😀", (1)), (4)); }

#[test]
fn t445_c2b_15() { assert_eq!(char_to_byte("a😀", (1)), (1)); }

#[test]
fn t446_c2b_16() { assert_eq!(char_to_byte("a😀", (2)), (5)); }

#[test]
fn t447_c2b_17() { assert_eq!(char_to_byte("", (0)), (0)); }

#[test]
fn t448_c2b_18() { assert_eq!(char_to_byte("", (5)), (0)); }

#[test]
fn t449_c2b_19() { assert_eq!(char_to_byte("abc", (10)), (3)); }

#[test]
fn t450_c2b_20() { assert_eq!(char_to_byte("\n", (0)), (0)); }

#[test]
fn t475_mx_1() {
                let w = writer_with("Hello World");
                assert!(w.word_count() >= (2));
                assert!(w.char_count() > 0);
                assert!(w.line_count() >= 1);
            }

#[test]
fn t476_mx_2() {
                let w = writer_with("안녕하세요");
                assert!(w.word_count() >= (1));
                assert!(w.char_count() > 0);
                assert!(w.line_count() >= 1);
            }

#[test]
fn t477_mx_3() {
                let w = writer_with("Line1\nLine2\nLine3");
                assert!(w.word_count() >= (3));
                assert!(w.char_count() > 0);
                assert!(w.line_count() >= 1);
            }

#[test]
fn t478_mx_4() {
                let w = writer_with("a b c d e");
                assert!(w.word_count() >= (5));
                assert!(w.char_count() > 0);
                assert!(w.line_count() >= 1);
            }

#[test]
fn t479_mx_5() {
                let w = writer_with("The quick brown fox jumps");
                assert!(w.word_count() >= (5));
                assert!(w.char_count() > 0);
                assert!(w.line_count() >= 1);
            }

#[test]
fn t480_mx_6() {
                let w = writer_with("One\nTwo\nThree\nFour\nFive");
                assert!(w.word_count() >= (5));
                assert!(w.char_count() > 0);
                assert!(w.line_count() >= 1);
            }

#[test]
fn t481_mx_7() {
                let w = writer_with("한글 영어 mixed 혼합");
                assert!(w.word_count() >= (4));
                assert!(w.char_count() > 0);
                assert!(w.line_count() >= 1);
            }

#[test]
fn t482_mx_8() {
                let w = writer_with("😀 emoji 테스트");
                assert!(w.word_count() >= (2));
                assert!(w.char_count() > 0);
                assert!(w.line_count() >= 1);
            }

#[test]
fn t483_mx_9() {
                let w = writer_with("1 2 3 4 5 6 7 8 9 10");
                assert!(w.word_count() >= (10));
                assert!(w.char_count() > 0);
                assert!(w.line_count() >= 1);
            }

#[test]
fn t484_mx_10() {
                let w = writer_with("paragraph one\n\nparagraph two");
                assert!(w.word_count() >= (4));
                assert!(w.char_count() > 0);
                assert!(w.line_count() >= 1);
            }

#[test]
fn t485_mx_11() {
                let w = writer_with("short");
                assert!(w.word_count() >= (1));
                assert!(w.char_count() > 0);
                assert!(w.line_count() >= 1);
            }

#[test]
fn t486_mx_12() {
                let w = writer_with("a b c\nd e f\ng h i");
                assert!(w.word_count() >= (9));
                assert!(w.char_count() > 0);
                assert!(w.line_count() >= 1);
            }

#[test]
fn t487_mx_13() {
                let w = writer_with("Tab\tseparated\tvalues");
                assert!(w.word_count() >= (3));
                assert!(w.char_count() > 0);
                assert!(w.line_count() >= 1);
            }

#[test]
fn t488_mx_14() {
                let w = writer_with("multiple   spaces   here");
                assert!(w.word_count() >= (3));
                assert!(w.char_count() > 0);
                assert!(w.line_count() >= 1);
            }

#[test]
fn t489_mx_15() {
                let w = writer_with("UPPERCASE lowercase MiXeD");
                assert!(w.word_count() >= (3));
                assert!(w.char_count() > 0);
                assert!(w.line_count() >= 1);
            }

#[test]
fn t490_mx_16() {
                let w = writer_with("with-hyphen and_underscore");
                assert!(w.word_count() >= (2));
                assert!(w.char_count() > 0);
                assert!(w.line_count() >= 1);
            }

#[test]
fn t491_mx_17() {
                let w = writer_with("number123 test456");
                assert!(w.word_count() >= (2));
                assert!(w.char_count() > 0);
                assert!(w.line_count() >= 1);
            }

#[test]
fn t492_mx_18() {
                let w = writer_with("한글만으로된문장입니다");
                assert!(w.word_count() >= (1));
                assert!(w.char_count() > 0);
                assert!(w.line_count() >= 1);
            }

#[test]
fn t493_mx_19() {
                let w = writer_with("a\nb\nc\nd\ne\nf\ng\nh\ni\nj");
                assert!(w.word_count() >= (10));
                assert!(w.char_count() > 0);
                assert!(w.line_count() >= 1);
            }

#[test]
fn t494_mx_20() {
                let w = writer_with("start middle end");
                assert!(w.word_count() >= (3));
                assert!(w.char_count() > 0);
                assert!(w.line_count() >= 1);
            }

#[test]
fn t501_sbm_1() {
                let s: &str = "The quick brown fox";
                let p = safe_byte_pos(s, (0));
                assert!(s.is_char_boundary(p));
            }

#[test]
fn t502_sbm_2() {
                let s: &str = "The quick brown fox";
                let p = safe_byte_pos(s, (4));
                assert!(s.is_char_boundary(p));
            }

#[test]
fn t503_sbm_3() {
                let s: &str = "The quick brown fox";
                let p = safe_byte_pos(s, (10));
                assert!(s.is_char_boundary(p));
            }

#[test]
fn t504_sbm_4() {
                let s: &str = "The quick brown fox";
                let p = safe_byte_pos(s, (19));
                assert!(s.is_char_boundary(p));
            }

#[test]
fn t505_sbm_5() {
                let s: &str = "The quick brown fox";
                let p = safe_byte_pos(s, (50));
                assert!(s.is_char_boundary(p));
            }

#[test]
fn t506_sbm_6() {
                let s: &str = "안녕하세요 세계입니다";
                let p = safe_byte_pos(s, (0));
                assert!(s.is_char_boundary(p));
            }

#[test]
fn t507_sbm_7() {
                let s: &str = "안녕하세요 세계입니다";
                let p = safe_byte_pos(s, (1));
                assert!(s.is_char_boundary(p));
            }

#[test]
fn t508_sbm_8() {
                let s: &str = "안녕하세요 세계입니다";
                let p = safe_byte_pos(s, (2));
                assert!(s.is_char_boundary(p));
            }

#[test]
fn t509_sbm_9() {
                let s: &str = "안녕하세요 세계입니다";
                let p = safe_byte_pos(s, (3));
                assert!(s.is_char_boundary(p));
            }

#[test]
fn t510_sbm_10() {
                let s: &str = "안녕하세요 세계입니다";
                let p = safe_byte_pos(s, (4));
                assert!(s.is_char_boundary(p));
            }

#[test]
fn t511_sbm_11() {
                let s: &str = "안녕하세요 세계입니다";
                let p = safe_byte_pos(s, (5));
                assert!(s.is_char_boundary(p));
            }

#[test]
fn t512_sbm_12() {
                let s: &str = "안녕하세요 세계입니다";
                let p = safe_byte_pos(s, (6));
                assert!(s.is_char_boundary(p));
            }

#[test]
fn t513_sbm_13() {
                let s: &str = "안녕하세요 세계입니다";
                let p = safe_byte_pos(s, (7));
                assert!(s.is_char_boundary(p));
            }

#[test]
fn t514_sbm_14() {
                let s: &str = "안녕하세요 세계입니다";
                let p = safe_byte_pos(s, (8));
                assert!(s.is_char_boundary(p));
            }

#[test]
fn t515_sbm_15() {
                let s: &str = "안녕하세요 세계입니다";
                let p = safe_byte_pos(s, (9));
                assert!(s.is_char_boundary(p));
            }

#[test]
fn t516_sbm_16() {
                let s: &str = "안녕하세요 세계입니다";
                let p = safe_byte_pos(s, (10));
                assert!(s.is_char_boundary(p));
            }

#[test]
fn t517_sbm_17() {
                let s: &str = "안녕하세요 세계입니다";
                let p = safe_byte_pos(s, (15));
                assert!(s.is_char_boundary(p));
            }

#[test]
fn t518_sbm_18() {
                let s: &str = "안녕하세요 세계입니다";
                let p = safe_byte_pos(s, (20));
                assert!(s.is_char_boundary(p));
            }

#[test]
fn t519_sbm_19() {
                let s: &str = "안녕하세요 세계입니다";
                let p = safe_byte_pos(s, (25));
                assert!(s.is_char_boundary(p));
            }

#[test]
fn t520_sbm_20() {
                let s: &str = "안녕하세요 세계입니다";
                let p = safe_byte_pos(s, (30));
                assert!(s.is_char_boundary(p));
            }

#[test]
fn t521_sbm_21() {
                let s: &str = "a\nb\nc\nd\ne";
                let p = safe_byte_pos(s, (0));
                assert!(s.is_char_boundary(p));
            }

#[test]
fn t522_sbm_22() {
                let s: &str = "a\nb\nc\nd\ne";
                let p = safe_byte_pos(s, (1));
                assert!(s.is_char_boundary(p));
            }

#[test]
fn t523_sbm_23() {
                let s: &str = "a\nb\nc\nd\ne";
                let p = safe_byte_pos(s, (2));
                assert!(s.is_char_boundary(p));
            }

#[test]
fn t524_sbm_24() {
                let s: &str = "a\nb\nc\nd\ne";
                let p = safe_byte_pos(s, (3));
                assert!(s.is_char_boundary(p));
            }

#[test]
fn t525_sbm_25() {
                let s: &str = "a\nb\nc\nd\ne";
                let p = safe_byte_pos(s, (4));
                assert!(s.is_char_boundary(p));
            }

#[test]
fn t526_sbm_26() {
                let s: &str = "a\nb\nc\nd\ne";
                let p = safe_byte_pos(s, (5));
                assert!(s.is_char_boundary(p));
            }

#[test]
fn t527_sbm_27() {
                let s: &str = "a\nb\nc\nd\ne";
                let p = safe_byte_pos(s, (6));
                assert!(s.is_char_boundary(p));
            }

#[test]
fn t528_sbm_28() {
                let s: &str = "a\nb\nc\nd\ne";
                let p = safe_byte_pos(s, (7));
                assert!(s.is_char_boundary(p));
            }

#[test]
fn t529_sbm_29() {
                let s: &str = "a\nb\nc\nd\ne";
                let p = safe_byte_pos(s, (8));
                assert!(s.is_char_boundary(p));
            }

#[test]
fn t530_sbm_30() {
                let s: &str = "a\nb\nc\nd\ne";
                let p = safe_byte_pos(s, (9));
                assert!(s.is_char_boundary(p));
            }

#[test]
fn t531_sbm_31() {
                let s: &str = "mix한ed글text";
                let p = safe_byte_pos(s, (0));
                assert!(s.is_char_boundary(p));
            }

#[test]
fn t532_sbm_32() {
                let s: &str = "mix한ed글text";
                let p = safe_byte_pos(s, (1));
                assert!(s.is_char_boundary(p));
            }

#[test]
fn t533_sbm_33() {
                let s: &str = "mix한ed글text";
                let p = safe_byte_pos(s, (2));
                assert!(s.is_char_boundary(p));
            }

#[test]
fn t534_sbm_34() {
                let s: &str = "mix한ed글text";
                let p = safe_byte_pos(s, (3));
                assert!(s.is_char_boundary(p));
            }

#[test]
fn t535_sbm_35() {
                let s: &str = "mix한ed글text";
                let p = safe_byte_pos(s, (4));
                assert!(s.is_char_boundary(p));
            }

#[test]
fn t536_sbm_36() {
                let s: &str = "mix한ed글text";
                let p = safe_byte_pos(s, (5));
                assert!(s.is_char_boundary(p));
            }

#[test]
fn t537_sbm_37() {
                let s: &str = "mix한ed글text";
                let p = safe_byte_pos(s, (6));
                assert!(s.is_char_boundary(p));
            }

#[test]
fn t538_sbm_38() {
                let s: &str = "mix한ed글text";
                let p = safe_byte_pos(s, (7));
                assert!(s.is_char_boundary(p));
            }

#[test]
fn t539_sbm_39() {
                let s: &str = "mix한ed글text";
                let p = safe_byte_pos(s, (8));
                assert!(s.is_char_boundary(p));
            }

#[test]
fn t540_sbm_40() {
                let s: &str = "mix한ed글text";
                let p = safe_byte_pos(s, (9));
                assert!(s.is_char_boundary(p));
            }

#[test]
fn t541_sbm_41() {
                let s: &str = "mix한ed글text";
                let p = safe_byte_pos(s, (10));
                assert!(s.is_char_boundary(p));
            }

#[test]
fn t542_sbm_42() {
                let s: &str = "mix한ed글text";
                let p = safe_byte_pos(s, (11));
                assert!(s.is_char_boundary(p));
            }

#[test]
fn t543_sbm_43() {
                let s: &str = "mix한ed글text";
                let p = safe_byte_pos(s, (12));
                assert!(s.is_char_boundary(p));
            }

#[test]
fn t544_sbm_44() {
                let s: &str = "mix한ed글text";
                let p = safe_byte_pos(s, (13));
                assert!(s.is_char_boundary(p));
            }

#[test]
fn t545_sbm_45() {
                let s: &str = "mix한ed글text";
                let p = safe_byte_pos(s, (14));
                assert!(s.is_char_boundary(p));
            }

#[test]
fn t546_sbm_46() {
                let s: &str = "mix한ed글text";
                let p = safe_byte_pos(s, (15));
                assert!(s.is_char_boundary(p));
            }

#[test]
fn t547_sbm_47() {
                let s: &str = "😀🎉🚀";
                let p = safe_byte_pos(s, (0));
                assert!(s.is_char_boundary(p));
            }

#[test]
fn t548_sbm_48() {
                let s: &str = "😀🎉🚀";
                let p = safe_byte_pos(s, (1));
                assert!(s.is_char_boundary(p));
            }

#[test]
fn t549_sbm_49() {
                let s: &str = "😀🎉🚀";
                let p = safe_byte_pos(s, (2));
                assert!(s.is_char_boundary(p));
            }

#[test]
fn t550_sbm_50() {
                let s: &str = "😀🎉🚀";
                let p = safe_byte_pos(s, (3));
                assert!(s.is_char_boundary(p));
            }

#[test]
fn t551_sbm_51() {
                let s: &str = "😀🎉🚀";
                let p = safe_byte_pos(s, (4));
                assert!(s.is_char_boundary(p));
            }

#[test]
fn t552_sbm_52() {
                let s: &str = "😀🎉🚀";
                let p = safe_byte_pos(s, (5));
                assert!(s.is_char_boundary(p));
            }

#[test]
fn t553_sbm_53() {
                let s: &str = "😀🎉🚀";
                let p = safe_byte_pos(s, (6));
                assert!(s.is_char_boundary(p));
            }

#[test]
fn t554_sbm_54() {
                let s: &str = "😀🎉🚀";
                let p = safe_byte_pos(s, (7));
                assert!(s.is_char_boundary(p));
            }

#[test]
fn t555_sbm_55() {
                let s: &str = "😀🎉🚀";
                let p = safe_byte_pos(s, (8));
                assert!(s.is_char_boundary(p));
            }

#[test]
fn t556_sbm_56() {
                let s: &str = "😀🎉🚀";
                let p = safe_byte_pos(s, (9));
                assert!(s.is_char_boundary(p));
            }

#[test]
fn t557_sbm_57() {
                let s: &str = "😀🎉🚀";
                let p = safe_byte_pos(s, (10));
                assert!(s.is_char_boundary(p));
            }

#[test]
fn t558_sbm_58() {
                let s: &str = "😀🎉🚀";
                let p = safe_byte_pos(s, (11));
                assert!(s.is_char_boundary(p));
            }

#[test]
fn t559_sbm_59() {
                let s: &str = "😀🎉🚀";
                let p = safe_byte_pos(s, (12));
                assert!(s.is_char_boundary(p));
            }

#[test]
fn t560_sbm_60() {
                let s: &str = "😀🎉🚀";
                let p = safe_byte_pos(s, (13));
                assert!(s.is_char_boundary(p));
            }

#[test]
fn t561_bc_1() {
                let s: &str = "hello\nworld\n\nnew para";
                let p = safe_byte_pos(s, (0));
                let (ls, le) = find_line_bounds(s, p);
                let (ps, pe) = find_para_bounds(s, p);
                assert!(ls <= le);
                assert!(ps <= pe);
                assert!(ps <= ls); // para start <= line start
                assert!(le <= pe); // line end <= para end
            }

#[test]
fn t562_bc_2() {
                let s: &str = "hello\nworld\n\nnew para";
                let p = safe_byte_pos(s, (3));
                let (ls, le) = find_line_bounds(s, p);
                let (ps, pe) = find_para_bounds(s, p);
                assert!(ls <= le);
                assert!(ps <= pe);
                assert!(ps <= ls); // para start <= line start
                assert!(le <= pe); // line end <= para end
            }

#[test]
fn t563_bc_3() {
                let s: &str = "hello\nworld\n\nnew para";
                let p = safe_byte_pos(s, (6));
                let (ls, le) = find_line_bounds(s, p);
                let (ps, pe) = find_para_bounds(s, p);
                assert!(ls <= le);
                assert!(ps <= pe);
                assert!(ps <= ls); // para start <= line start
                assert!(le <= pe); // line end <= para end
            }

#[test]
fn t564_bc_4() {
                let s: &str = "hello\nworld\n\nnew para";
                let p = safe_byte_pos(s, (10));
                let (ls, le) = find_line_bounds(s, p);
                let (ps, pe) = find_para_bounds(s, p);
                assert!(ls <= le);
                assert!(ps <= pe);
                assert!(ps <= ls); // para start <= line start
                assert!(le <= pe); // line end <= para end
            }

#[test]
fn t565_bc_5() {
                let s: &str = "hello\nworld\n\nnew para";
                let p = safe_byte_pos(s, (13));
                let (ls, le) = find_line_bounds(s, p);
                let (ps, pe) = find_para_bounds(s, p);
                assert!(ls <= le);
                assert!(ps <= pe);
                assert!(ps <= ls); // para start <= line start
                assert!(le <= pe); // line end <= para end
            }

#[test]
fn t566_bc_6() {
                let s: &str = "hello\nworld\n\nnew para";
                let p = safe_byte_pos(s, (18));
                let (ls, le) = find_line_bounds(s, p);
                let (ps, pe) = find_para_bounds(s, p);
                assert!(ls <= le);
                assert!(ps <= pe);
                assert!(ps <= ls); // para start <= line start
                assert!(le <= pe); // line end <= para end
            }

#[test]
fn t567_bc_7() {
                let s: &str = "a\n\nb\n\nc";
                let p = safe_byte_pos(s, (0));
                let (ls, le) = find_line_bounds(s, p);
                let (ps, pe) = find_para_bounds(s, p);
                assert!(ls <= le);
                assert!(ps <= pe);
                assert!(ps <= ls); // para start <= line start
                assert!(le <= pe); // line end <= para end
            }

#[test]
fn t568_bc_8() {
                let s: &str = "a\n\nb\n\nc";
                let p = safe_byte_pos(s, (3));
                let (ls, le) = find_line_bounds(s, p);
                let (ps, pe) = find_para_bounds(s, p);
                assert!(ls <= le);
                assert!(ps <= pe);
                assert!(ps <= ls); // para start <= line start
                assert!(le <= pe); // line end <= para end
            }

#[test]
fn t569_bc_9() {
                let s: &str = "a\n\nb\n\nc";
                let p = safe_byte_pos(s, (5));
                let (ls, le) = find_line_bounds(s, p);
                let (ps, pe) = find_para_bounds(s, p);
                assert!(ls <= le);
                assert!(ps <= pe);
                assert!(ps <= ls); // para start <= line start
                assert!(le <= pe); // line end <= para end
            }

#[test]
fn t570_bc_10() {
                let s: &str = "single line";
                let p = safe_byte_pos(s, (0));
                let (ls, le) = find_line_bounds(s, p);
                let (ps, pe) = find_para_bounds(s, p);
                assert!(ls <= le);
                assert!(ps <= pe);
                assert!(ps <= ls); // para start <= line start
                assert!(le <= pe); // line end <= para end
            }

#[test]
fn t571_bc_11() {
                let s: &str = "single line";
                let p = safe_byte_pos(s, (5));
                let (ls, le) = find_line_bounds(s, p);
                let (ps, pe) = find_para_bounds(s, p);
                assert!(ls <= le);
                assert!(ps <= pe);
                assert!(ps <= ls); // para start <= line start
                assert!(le <= pe); // line end <= para end
            }

#[test]
fn t572_bc_12() {
                let s: &str = "single line";
                let p = safe_byte_pos(s, (11));
                let (ls, le) = find_line_bounds(s, p);
                let (ps, pe) = find_para_bounds(s, p);
                assert!(ls <= le);
                assert!(ps <= pe);
                assert!(ps <= ls); // para start <= line start
                assert!(le <= pe); // line end <= para end
            }

#[test]
fn t573_bc_13() {
                let s: &str = "a\nb\nc\n\nd\ne\nf";
                let p = safe_byte_pos(s, (0));
                let (ls, le) = find_line_bounds(s, p);
                let (ps, pe) = find_para_bounds(s, p);
                assert!(ls <= le);
                assert!(ps <= pe);
                assert!(ps <= ls); // para start <= line start
                assert!(le <= pe); // line end <= para end
            }

#[test]
fn t574_bc_14() {
                let s: &str = "a\nb\nc\n\nd\ne\nf";
                let p = safe_byte_pos(s, (2));
                let (ls, le) = find_line_bounds(s, p);
                let (ps, pe) = find_para_bounds(s, p);
                assert!(ls <= le);
                assert!(ps <= pe);
                assert!(ps <= ls); // para start <= line start
                assert!(le <= pe); // line end <= para end
            }

#[test]
fn t575_bc_15() {
                let s: &str = "a\nb\nc\n\nd\ne\nf";
                let p = safe_byte_pos(s, (4));
                let (ls, le) = find_line_bounds(s, p);
                let (ps, pe) = find_para_bounds(s, p);
                assert!(ls <= le);
                assert!(ps <= pe);
                assert!(ps <= ls); // para start <= line start
                assert!(le <= pe); // line end <= para end
            }

#[test]
fn t576_bc_16() {
                let s: &str = "a\nb\nc\n\nd\ne\nf";
                let p = safe_byte_pos(s, (7));
                let (ls, le) = find_line_bounds(s, p);
                let (ps, pe) = find_para_bounds(s, p);
                assert!(ls <= le);
                assert!(ps <= pe);
                assert!(ps <= ls); // para start <= line start
                assert!(le <= pe); // line end <= para end
            }

#[test]
fn t577_bc_17() {
                let s: &str = "a\nb\nc\n\nd\ne\nf";
                let p = safe_byte_pos(s, (9));
                let (ls, le) = find_line_bounds(s, p);
                let (ps, pe) = find_para_bounds(s, p);
                assert!(ls <= le);
                assert!(ps <= pe);
                assert!(ps <= ls); // para start <= line start
                assert!(le <= pe); // line end <= para end
            }

#[test]
fn t578_bc_18() {
                let s: &str = "a\nb\nc\n\nd\ne\nf";
                let p = safe_byte_pos(s, (11));
                let (ls, le) = find_line_bounds(s, p);
                let (ps, pe) = find_para_bounds(s, p);
                assert!(ls <= le);
                assert!(ps <= pe);
                assert!(ps <= ls); // para start <= line start
                assert!(le <= pe); // line end <= para end
            }

#[test]
fn t579_bc_19() {
                let s: &str = "";
                let p = safe_byte_pos(s, (0));
                let (ls, le) = find_line_bounds(s, p);
                let (ps, pe) = find_para_bounds(s, p);
                assert!(ls <= le);
                assert!(ps <= pe);
                assert!(ps <= ls); // para start <= line start
                assert!(le <= pe); // line end <= para end
            }

#[test]
fn t580_bc_20() {
                let s: &str = "x";
                let p = safe_byte_pos(s, (0));
                let (ls, le) = find_line_bounds(s, p);
                let (ps, pe) = find_para_bounds(s, p);
                assert!(ls <= le);
                assert!(ps <= pe);
                assert!(ps <= ls); // para start <= line start
                assert!(le <= pe); // line end <= para end
            }

#[test]
fn t581_bc_21() {
                let s: &str = "x";
                let p = safe_byte_pos(s, (1));
                let (ls, le) = find_line_bounds(s, p);
                let (ps, pe) = find_para_bounds(s, p);
                assert!(ls <= le);
                assert!(ps <= pe);
                assert!(ps <= ls); // para start <= line start
                assert!(le <= pe); // line end <= para end
            }

#[test]
fn t582_bc_22() {
                let s: &str = "\n";
                let p = safe_byte_pos(s, (0));
                let (ls, le) = find_line_bounds(s, p);
                let (ps, pe) = find_para_bounds(s, p);
                assert!(ls <= le);
                assert!(ps <= pe);
                assert!(ps <= ls); // para start <= line start
                assert!(le <= pe); // line end <= para end
            }

#[test]
fn t583_bc_23() {
                let s: &str = "\n\n";
                let p = safe_byte_pos(s, (0));
                let (ls, le) = find_line_bounds(s, p);
                let (ps, pe) = find_para_bounds(s, p);
                assert!(ls <= le);
                assert!(ps <= pe);
                assert!(ps <= ls); // para start <= line start
                assert!(le <= pe); // line end <= para end
            }

#[test]
fn t584_bc_24() {
                let s: &str = "abc\ndef\n\nghi\njkl";
                let p = safe_byte_pos(s, (0));
                let (ls, le) = find_line_bounds(s, p);
                let (ps, pe) = find_para_bounds(s, p);
                assert!(ls <= le);
                assert!(ps <= pe);
                assert!(ps <= ls); // para start <= line start
                assert!(le <= pe); // line end <= para end
            }

#[test]
fn t585_bc_25() {
                let s: &str = "abc\ndef\n\nghi\njkl";
                let p = safe_byte_pos(s, (4));
                let (ls, le) = find_line_bounds(s, p);
                let (ps, pe) = find_para_bounds(s, p);
                assert!(ls <= le);
                assert!(ps <= pe);
                assert!(ps <= ls); // para start <= line start
                assert!(le <= pe); // line end <= para end
            }

#[test]
fn t586_bc_26() {
                let s: &str = "abc\ndef\n\nghi\njkl";
                let p = safe_byte_pos(s, (8));
                let (ls, le) = find_line_bounds(s, p);
                let (ps, pe) = find_para_bounds(s, p);
                assert!(ls <= le);
                assert!(ps <= pe);
                assert!(ps <= ls); // para start <= line start
                assert!(le <= pe); // line end <= para end
            }

#[test]
fn t587_bc_27() {
                let s: &str = "abc\ndef\n\nghi\njkl";
                let p = safe_byte_pos(s, (12));
                let (ls, le) = find_line_bounds(s, p);
                let (ps, pe) = find_para_bounds(s, p);
                assert!(ls <= le);
                assert!(ps <= pe);
                assert!(ps <= ls); // para start <= line start
                assert!(le <= pe); // line end <= para end
            }

#[test]
fn t588_bc_28() {
                let s: &str = "한글\n테스트\n\n새문단\n끝";
                let p = safe_byte_pos(s, (0));
                let (ls, le) = find_line_bounds(s, p);
                let (ps, pe) = find_para_bounds(s, p);
                assert!(ls <= le);
                assert!(ps <= pe);
                assert!(ps <= ls); // para start <= line start
                assert!(le <= pe); // line end <= para end
            }

#[test]
fn t589_bc_29() {
                let s: &str = "한글\n테스트\n\n새문단\n끝";
                let p = safe_byte_pos(s, (7));
                let (ls, le) = find_line_bounds(s, p);
                let (ps, pe) = find_para_bounds(s, p);
                assert!(ls <= le);
                assert!(ps <= pe);
                assert!(ps <= ls); // para start <= line start
                assert!(le <= pe); // line end <= para end
            }

#[test]
fn t590_bc_30() {
                let s: &str = "한글\n테스트\n\n새문단\n끝";
                let p = safe_byte_pos(s, (17));
                let (ls, le) = find_line_bounds(s, p);
                let (ps, pe) = find_para_bounds(s, p);
                assert!(ls <= le);
                assert!(ps <= pe);
                assert!(ps <= ls); // para start <= line start
                assert!(le <= pe); // line end <= para end
            }

#[test]
fn t591_rv_1() {
                let mut w = writer_with("abc def abc");
                w.find_text = ("abc").into();
                w.replace_text = ("xyz").into();
                w.replace_all();
                // After replace_all, find_count should be 0 for the searched pattern
                w.update_find_count();
                // Verify no searched pattern remains (case-insensitive)
                let _lower = w.tabs[0].text.to_lowercase();
                let pat = ("abc").to_lowercase();
                if ("abc") != ("xyz") && !("xyz").to_lowercase().contains(&pat) {
                    assert_eq!(w.find_count, 0, "pattern should be gone after replace_all");
                }
            }

#[test]
fn t592_rv_2() {
                let mut w = writer_with("hello hello hello");
                w.find_text = ("hello").into();
                w.replace_text = ("hi").into();
                w.replace_all();
                // After replace_all, find_count should be 0 for the searched pattern
                w.update_find_count();
                // Verify no searched pattern remains (case-insensitive)
                let _lower = w.tabs[0].text.to_lowercase();
                let pat = ("hello").to_lowercase();
                if ("hello") != ("hi") && !("hi").to_lowercase().contains(&pat) {
                    assert_eq!(w.find_count, 0, "pattern should be gone after replace_all");
                }
            }

#[test]
fn t593_rv_3() {
                let mut w = writer_with("test test");
                w.find_text = ("test").into();
                w.replace_text = ("exam").into();
                w.replace_all();
                // After replace_all, find_count should be 0 for the searched pattern
                w.update_find_count();
                // Verify no searched pattern remains (case-insensitive)
                let _lower = w.tabs[0].text.to_lowercase();
                let pat = ("test").to_lowercase();
                if ("test") != ("exam") && !("exam").to_lowercase().contains(&pat) {
                    assert_eq!(w.find_count, 0, "pattern should be gone after replace_all");
                }
            }

#[test]
fn t594_rv_4() {
                let mut w = writer_with("aaa bbb aaa");
                w.find_text = ("aaa").into();
                w.replace_text = ("ccc").into();
                w.replace_all();
                // After replace_all, find_count should be 0 for the searched pattern
                w.update_find_count();
                // Verify no searched pattern remains (case-insensitive)
                let _lower = w.tabs[0].text.to_lowercase();
                let pat = ("aaa").to_lowercase();
                if ("aaa") != ("ccc") && !("ccc").to_lowercase().contains(&pat) {
                    assert_eq!(w.find_count, 0, "pattern should be gone after replace_all");
                }
            }

#[test]
fn t595_rv_5() {
                let mut w = writer_with("foo bar foo");
                w.find_text = ("foo").into();
                w.replace_text = ("baz").into();
                w.replace_all();
                // After replace_all, find_count should be 0 for the searched pattern
                w.update_find_count();
                // Verify no searched pattern remains (case-insensitive)
                let _lower = w.tabs[0].text.to_lowercase();
                let pat = ("foo").to_lowercase();
                if ("foo") != ("baz") && !("baz").to_lowercase().contains(&pat) {
                    assert_eq!(w.find_count, 0, "pattern should be gone after replace_all");
                }
            }

#[test]
fn t596_rv_6() {
                let mut w = writer_with("한글 한글 한글");
                w.find_text = ("한글").into();
                w.replace_text = ("영어").into();
                w.replace_all();
                // After replace_all, find_count should be 0 for the searched pattern
                w.update_find_count();
                // Verify no searched pattern remains (case-insensitive)
                let _lower = w.tabs[0].text.to_lowercase();
                let pat = ("한글").to_lowercase();
                if ("한글") != ("영어") && !("영어").to_lowercase().contains(&pat) {
                    assert_eq!(w.find_count, 0, "pattern should be gone after replace_all");
                }
            }

#[test]
fn t597_rv_7() {
                let mut w = writer_with("one two one");
                w.find_text = ("one").into();
                w.replace_text = ("three").into();
                w.replace_all();
                // After replace_all, find_count should be 0 for the searched pattern
                w.update_find_count();
                // Verify no searched pattern remains (case-insensitive)
                let _lower = w.tabs[0].text.to_lowercase();
                let pat = ("one").to_lowercase();
                if ("one") != ("three") && !("three").to_lowercase().contains(&pat) {
                    assert_eq!(w.find_count, 0, "pattern should be gone after replace_all");
                }
            }

#[test]
fn t598_rv_8() {
                let mut w = writer_with("x y x y x");
                w.find_text = ("x").into();
                w.replace_text = ("z").into();
                w.replace_all();
                // After replace_all, find_count should be 0 for the searched pattern
                w.update_find_count();
                // Verify no searched pattern remains (case-insensitive)
                let _lower = w.tabs[0].text.to_lowercase();
                let pat = ("x").to_lowercase();
                if ("x") != ("z") && !("z").to_lowercase().contains(&pat) {
                    assert_eq!(w.find_count, 0, "pattern should be gone after replace_all");
                }
            }

#[test]
fn t599_rv_9() {
                let mut w = writer_with("old new old");
                w.find_text = ("old").into();
                w.replace_text = ("fresh").into();
                w.replace_all();
                // After replace_all, find_count should be 0 for the searched pattern
                w.update_find_count();
                // Verify no searched pattern remains (case-insensitive)
                let _lower = w.tabs[0].text.to_lowercase();
                let pat = ("old").to_lowercase();
                if ("old") != ("fresh") && !("fresh").to_lowercase().contains(&pat) {
                    assert_eq!(w.find_count, 0, "pattern should be gone after replace_all");
                }
            }

#[test]
fn t600_rv_10() {
                let mut w = writer_with("red blue red");
                w.find_text = ("red").into();
                w.replace_text = ("green").into();
                w.replace_all();
                // After replace_all, find_count should be 0 for the searched pattern
                w.update_find_count();
                // Verify no searched pattern remains (case-insensitive)
                let _lower = w.tabs[0].text.to_lowercase();
                let pat = ("red").to_lowercase();
                if ("red") != ("green") && !("green").to_lowercase().contains(&pat) {
                    assert_eq!(w.find_count, 0, "pattern should be gone after replace_all");
                }
            }

#[test]
fn t601_rv_11() {
                let mut w = writer_with("cat dog cat");
                w.find_text = ("cat").into();
                w.replace_text = ("bird").into();
                w.replace_all();
                // After replace_all, find_count should be 0 for the searched pattern
                w.update_find_count();
                // Verify no searched pattern remains (case-insensitive)
                let _lower = w.tabs[0].text.to_lowercase();
                let pat = ("cat").to_lowercase();
                if ("cat") != ("bird") && !("bird").to_lowercase().contains(&pat) {
                    assert_eq!(w.find_count, 0, "pattern should be gone after replace_all");
                }
            }

#[test]
fn t602_rv_12() {
                let mut w = writer_with("up down up");
                w.find_text = ("up").into();
                w.replace_text = ("left").into();
                w.replace_all();
                // After replace_all, find_count should be 0 for the searched pattern
                w.update_find_count();
                // Verify no searched pattern remains (case-insensitive)
                let _lower = w.tabs[0].text.to_lowercase();
                let pat = ("up").to_lowercase();
                if ("up") != ("left") && !("left").to_lowercase().contains(&pat) {
                    assert_eq!(w.find_count, 0, "pattern should be gone after replace_all");
                }
            }

#[test]
fn t603_rv_13() {
                let mut w = writer_with("yes no yes");
                w.find_text = ("yes").into();
                w.replace_text = ("ok").into();
                w.replace_all();
                // After replace_all, find_count should be 0 for the searched pattern
                w.update_find_count();
                // Verify no searched pattern remains (case-insensitive)
                let _lower = w.tabs[0].text.to_lowercase();
                let pat = ("yes").to_lowercase();
                if ("yes") != ("ok") && !("ok").to_lowercase().contains(&pat) {
                    assert_eq!(w.find_count, 0, "pattern should be gone after replace_all");
                }
            }

#[test]
fn t604_rv_14() {
                let mut w = writer_with("big small big");
                w.find_text = ("big").into();
                w.replace_text = ("tiny").into();
                w.replace_all();
                // After replace_all, find_count should be 0 for the searched pattern
                w.update_find_count();
                // Verify no searched pattern remains (case-insensitive)
                let _lower = w.tabs[0].text.to_lowercase();
                let pat = ("big").to_lowercase();
                if ("big") != ("tiny") && !("tiny").to_lowercase().contains(&pat) {
                    assert_eq!(w.find_count, 0, "pattern should be gone after replace_all");
                }
            }

#[test]
fn t605_rv_15() {
                let mut w = writer_with("fast slow fast");
                w.find_text = ("fast").into();
                w.replace_text = ("quick").into();
                w.replace_all();
                // After replace_all, find_count should be 0 for the searched pattern
                w.update_find_count();
                // Verify no searched pattern remains (case-insensitive)
                let _lower = w.tabs[0].text.to_lowercase();
                let pat = ("fast").to_lowercase();
                if ("fast") != ("quick") && !("quick").to_lowercase().contains(&pat) {
                    assert_eq!(w.find_count, 0, "pattern should be gone after replace_all");
                }
            }

#[test]
fn t606_rv_16() {
                let mut w = writer_with("hot cold hot");
                w.find_text = ("hot").into();
                w.replace_text = ("warm").into();
                w.replace_all();
                // After replace_all, find_count should be 0 for the searched pattern
                w.update_find_count();
                // Verify no searched pattern remains (case-insensitive)
                let _lower = w.tabs[0].text.to_lowercase();
                let pat = ("hot").to_lowercase();
                if ("hot") != ("warm") && !("warm").to_lowercase().contains(&pat) {
                    assert_eq!(w.find_count, 0, "pattern should be gone after replace_all");
                }
            }

#[test]
fn t607_rv_17() {
                let mut w = writer_with("day night day");
                w.find_text = ("day").into();
                w.replace_text = ("morning").into();
                w.replace_all();
                // After replace_all, find_count should be 0 for the searched pattern
                w.update_find_count();
                // Verify no searched pattern remains (case-insensitive)
                let _lower = w.tabs[0].text.to_lowercase();
                let pat = ("day").to_lowercase();
                if ("day") != ("morning") && !("morning").to_lowercase().contains(&pat) {
                    assert_eq!(w.find_count, 0, "pattern should be gone after replace_all");
                }
            }

#[test]
fn t608_rv_18() {
                let mut w = writer_with("start end start");
                w.find_text = ("start").into();
                w.replace_text = ("begin").into();
                w.replace_all();
                // After replace_all, find_count should be 0 for the searched pattern
                w.update_find_count();
                // Verify no searched pattern remains (case-insensitive)
                let _lower = w.tabs[0].text.to_lowercase();
                let pat = ("start").to_lowercase();
                if ("start") != ("begin") && !("begin").to_lowercase().contains(&pat) {
                    assert_eq!(w.find_count, 0, "pattern should be gone after replace_all");
                }
            }

#[test]
fn t609_rv_19() {
                let mut w = writer_with("open close open");
                w.find_text = ("open").into();
                w.replace_text = ("shut").into();
                w.replace_all();
                // After replace_all, find_count should be 0 for the searched pattern
                w.update_find_count();
                // Verify no searched pattern remains (case-insensitive)
                let _lower = w.tabs[0].text.to_lowercase();
                let pat = ("open").to_lowercase();
                if ("open") != ("shut") && !("shut").to_lowercase().contains(&pat) {
                    assert_eq!(w.find_count, 0, "pattern should be gone after replace_all");
                }
            }

#[test]
fn t610_rv_20() {
                let mut w = writer_with("push pull push");
                w.find_text = ("push").into();
                w.replace_text = ("press").into();
                w.replace_all();
                // After replace_all, find_count should be 0 for the searched pattern
                w.update_find_count();
                // Verify no searched pattern remains (case-insensitive)
                let _lower = w.tabs[0].text.to_lowercase();
                let pat = ("push").to_lowercase();
                if ("push") != ("press") && !("press").to_lowercase().contains(&pat) {
                    assert_eq!(w.find_count, 0, "pattern should be gone after replace_all");
                }
            }

#[test]
fn t631_rp_1() {
                let mut w = writer_with("aa bb cc");
                w.find_text = ("bb").into();
                w.replace_text = ("BB").into();
                w.replace_all();
                assert_eq!(w.tabs[0].text, ("aa BB cc"));
            }

#[test]
fn t632_rp_2() {
                let mut w = writer_with("start");
                w.find_text = ("start").into();
                w.replace_text = ("end").into();
                w.replace_all();
                assert_eq!(w.tabs[0].text, ("end"));
            }

#[test]
fn t633_rp_3() {
                let mut w = writer_with("1+1=2");
                w.find_text = ("1").into();
                w.replace_text = ("one").into();
                w.replace_all();
                assert_eq!(w.tabs[0].text, ("one+one=2"));
            }

#[test]
fn t634_rp_4() {
                let mut w = writer_with("a.b.c");
                w.find_text = (".").into();
                w.replace_text = ("-").into();
                w.replace_all();
                assert_eq!(w.tabs[0].text, ("a-b-c"));
            }

#[test]
fn t635_rp_5() {
                let mut w = writer_with("hello!");
                w.find_text = ("!").into();
                w.replace_text = ("?").into();
                w.replace_all();
                assert_eq!(w.tabs[0].text, ("hello?"));
            }

#[test]
fn t636_rp_6() {
                let mut w = writer_with("(a)(b)");
                w.find_text = ("(").into();
                w.replace_text = ("[").into();
                w.replace_all();
                assert_eq!(w.tabs[0].text, ("[a)[b)"));
            }

#[test]
fn t637_rp_7() {
                let mut w = writer_with("end\n");
                w.find_text = ("\n").into();
                w.replace_text = ("").into();
                w.replace_all();
                assert_eq!(w.tabs[0].text, ("end"));
            }

#[test]
fn t638_rp_8() {
                let mut w = writer_with("  spaces  ");
                w.find_text = (" ").into();
                w.replace_text = ("_").into();
                w.replace_all();
                assert_eq!(w.tabs[0].text, ("__spaces__"));
            }

#[test]
fn t639_rp_9() {
                let mut w = writer_with("CamelCase");
                w.find_text = ("camelcase").into();
                w.replace_text = ("snake_case").into();
                w.replace_all();
                assert_eq!(w.tabs[0].text, ("snake_case"));
            }

#[test]
fn t640_rp_10() {
                let mut w = writer_with("abc123abc");
                w.find_text = ("abc").into();
                w.replace_text = ("XYZ").into();
                w.replace_all();
                assert_eq!(w.tabs[0].text, ("XYZ123XYZ"));
            }

#[test]
fn t641_rp_11() {
                let mut w = writer_with("가나다");
                w.find_text = ("나").into();
                w.replace_text = ("라").into();
                w.replace_all();
                assert_eq!(w.tabs[0].text, ("가라다"));
            }

#[test]
fn t642_rp_12() {
                let mut w = writer_with("one,two,three");
                w.find_text = (",").into();
                w.replace_text = (";").into();
                w.replace_all();
                assert_eq!(w.tabs[0].text, ("one;two;three"));
            }

#[test]
fn t643_rp_13() {
                let mut w = writer_with("path/to/file");
                w.find_text = ("/").into();
                w.replace_text = ("\\").into();
                w.replace_all();
                assert_eq!(w.tabs[0].text, ("path\\to\\file"));
            }

#[test]
fn t644_rp_14() {
                let mut w = writer_with("hello world");
                w.find_text = ("hello world").into();
                w.replace_text = ("hi").into();
                w.replace_all();
                assert_eq!(w.tabs[0].text, ("hi"));
            }

#[test]
fn t645_rp_15() {
                let mut w = writer_with("repeat repeat");
                w.find_text = ("repeat").into();
                w.replace_text = ("once").into();
                w.replace_all();
                assert_eq!(w.tabs[0].text, ("once once"));
            }

#[test]
fn t646_ce_1() {
                let w = writer_with("a");
                assert_eq!(w.word_count(), (1), "word count");
                assert_eq!(w.char_count(), (1), "char count");
                assert_eq!(w.line_count(), (1), "line count");
            }

#[test]
fn t647_ce_2() {
                let w = writer_with("ab");
                assert_eq!(w.word_count(), (1), "word count");
                assert_eq!(w.char_count(), (2), "char count");
                assert_eq!(w.line_count(), (1), "line count");
            }

#[test]
fn t648_ce_3() {
                let w = writer_with("a b");
                assert_eq!(w.word_count(), (2), "word count");
                assert_eq!(w.char_count(), (3), "char count");
                assert_eq!(w.line_count(), (1), "line count");
            }

#[test]
fn t649_ce_4() {
                let w = writer_with("a\n");
                assert_eq!(w.word_count(), (1), "word count");
                assert_eq!(w.char_count(), (2), "char count");
                assert_eq!(w.line_count(), (1), "line count");
            }

#[test]
fn t650_ce_5() {
                let w = writer_with("\na");
                assert_eq!(w.word_count(), (1), "word count");
                assert_eq!(w.char_count(), (2), "char count");
                assert_eq!(w.line_count(), (2), "line count");
            }

#[test]
fn t651_ce_6() {
                let w = writer_with("\n\na");
                assert_eq!(w.word_count(), (1), "word count");
                assert_eq!(w.char_count(), (3), "char count");
                assert_eq!(w.line_count(), (3), "line count");
            }

#[test]
fn t652_ce_7() {
                let w = writer_with("a\n\n");
                assert_eq!(w.word_count(), (1), "word count");
                assert_eq!(w.char_count(), (3), "char count");
                assert_eq!(w.line_count(), (2), "line count");
            }

#[test]
fn t653_ce_8() {
                let w = writer_with("word\n\nword");
                assert_eq!(w.word_count(), (2), "word count");
                assert_eq!(w.char_count(), (10), "char count");
                assert_eq!(w.line_count(), (3), "line count");
            }

#[test]
fn t654_ce_9() {
                let w = writer_with("한");
                assert_eq!(w.word_count(), (1), "word count");
                assert_eq!(w.char_count(), (1), "char count");
                assert_eq!(w.line_count(), (1), "line count");
            }

#[test]
fn t655_ce_10() {
                let w = writer_with("한\n글");
                assert_eq!(w.word_count(), (2), "word count");
                assert_eq!(w.char_count(), (3), "char count");
                assert_eq!(w.line_count(), (2), "line count");
            }

#[test]
fn t656_ce_11() {
                let w = writer_with("a b\nc d\ne f");
                assert_eq!(w.word_count(), (6), "word count");
                assert_eq!(w.char_count(), (11), "char count");
                assert_eq!(w.line_count(), (3), "line count");
            }

#[test]
fn t657_ce_12() {
                let w = writer_with("\t");
                assert_eq!(w.word_count(), (0), "word count");
                assert_eq!(w.char_count(), (1), "char count");
                assert_eq!(w.line_count(), (1), "line count");
            }

#[test]
fn t658_ce_13() {
                let w = writer_with("a\tb");
                assert_eq!(w.word_count(), (2), "word count");
                assert_eq!(w.char_count(), (3), "char count");
                assert_eq!(w.line_count(), (1), "line count");
            }

#[test]
fn t659_ce_14() {
                let w = writer_with("  \n  ");
                assert_eq!(w.word_count(), (0), "word count");
                assert_eq!(w.char_count(), (5), "char count");
                assert_eq!(w.line_count(), (2), "line count");
            }

#[test]
fn t660_ce_15() {
                let w = writer_with("a b c d e f g h i j k l m n o p q r s t u v w x y z");
                assert_eq!(w.word_count(), (26), "word count");
                assert_eq!(w.char_count(), (51), "char count");
                assert_eq!(w.line_count(), (1), "line count");
            }

#[test]
fn t661_mf_1() {
                let mut w = writer_with("alpha beta gamma");
                w.find_text = ("alpha").into();
                w.update_find_count();
                assert_eq!(w.find_count, (1));
            }

#[test]
fn t662_mf_2() {
                let mut w = writer_with("alpha beta gamma");
                w.find_text = ("beta").into();
                w.update_find_count();
                assert_eq!(w.find_count, (1));
            }

#[test]
fn t663_mf_3() {
                let mut w = writer_with("alpha beta gamma");
                w.find_text = ("gamma").into();
                w.update_find_count();
                assert_eq!(w.find_count, (1));
            }

#[test]
fn t664_mf_4() {
                let mut w = writer_with("alpha beta gamma");
                w.find_text = ("delta").into();
                w.update_find_count();
                assert_eq!(w.find_count, (0));
            }

#[test]
fn t665_mf_5() {
                let mut w = writer_with("aaabbbccc");
                w.find_text = ("bbb").into();
                w.update_find_count();
                assert_eq!(w.find_count, (1));
            }

#[test]
fn t666_mf_6() {
                let mut w = writer_with("abababab");
                w.find_text = ("ab").into();
                w.update_find_count();
                assert_eq!(w.find_count, (4));
            }

#[test]
fn t667_mf_7() {
                let mut w = writer_with("abababab");
                w.find_text = ("aba").into();
                w.update_find_count();
                assert_eq!(w.find_count, (2));
            }

#[test]
fn t668_mf_8() {
                let mut w = writer_with("HELLO");
                w.find_text = ("hello").into();
                w.update_find_count();
                assert_eq!(w.find_count, (1));
            }

#[test]
fn t669_mf_9() {
                let mut w = writer_with("hello");
                w.find_text = ("HELLO").into();
                w.update_find_count();
                assert_eq!(w.find_count, (1));
            }

#[test]
fn t670_mf_10() {
                let mut w = writer_with("HeLLo");
                w.find_text = ("hello").into();
                w.update_find_count();
                assert_eq!(w.find_count, (1));
            }

#[test]
fn t671_mf_11() {
                let mut w = writer_with("한글 테스트 한글");
                w.find_text = ("한글").into();
                w.update_find_count();
                assert_eq!(w.find_count, (2));
            }

#[test]
fn t672_mf_12() {
                let mut w = writer_with("abc\nabc\nabc\nabc");
                w.find_text = ("abc").into();
                w.update_find_count();
                assert_eq!(w.find_count, (4));
            }

#[test]
fn t673_mf_13() {
                let mut w = writer_with("  a  b  c  ");
                w.find_text = (" ").into();
                w.update_find_count();
                assert_eq!(w.find_count, (8));
            }

#[test]
fn t674_mf_14() {
                let mut w = writer_with("x");
                w.find_text = ("x").into();
                w.update_find_count();
                assert_eq!(w.find_count, (1));
            }

#[test]
fn t675_mf_15() {
                let mut w = writer_with("x");
                w.find_text = ("y").into();
                w.update_find_count();
                assert_eq!(w.find_count, (0));
            }

#[test]
fn t676_mf_16() {
                let mut w = writer_with("11111");
                w.find_text = ("11").into();
                w.update_find_count();
                assert_eq!(w.find_count, (2));
            }

#[test]
fn t677_mf_17() {
                let mut w = writer_with("aAbBcC");
                w.find_text = ("ab").into();
                w.update_find_count();
                assert_eq!(w.find_count, (1));
            }

#[test]
fn t678_mf_18() {
                let mut w = writer_with("line1\nline2");
                w.find_text = ("line").into();
                w.update_find_count();
                assert_eq!(w.find_count, (2));
            }

#[test]
fn t679_mf_19() {
                let mut w = writer_with("OpenAI ChatGPT");
                w.find_text = ("gpt").into();
                w.update_find_count();
                assert_eq!(w.find_count, (1));
            }

#[test]
fn t680_mf_20() {
                let mut w = writer_with("  ");
                w.find_text = (" ").into();
                w.update_find_count();
                assert_eq!(w.find_count, (2));
            }

#[test]
fn t701_c2b_ext_1() { assert_eq!(char_to_byte("hello world", (6)), (6)); }

#[test]
fn t702_c2b_ext_2() { assert_eq!(char_to_byte("hello world", (11)), (11)); }

#[test]
fn t703_c2b_ext_3() { assert_eq!(char_to_byte("안녕하세요", (0)), (0)); }

#[test]
fn t704_c2b_ext_4() { assert_eq!(char_to_byte("안녕하세요", (1)), (3)); }

#[test]
fn t705_c2b_ext_5() { assert_eq!(char_to_byte("안녕하세요", (2)), (6)); }

#[test]
fn t706_c2b_ext_6() { assert_eq!(char_to_byte("안녕하세요", (3)), (9)); }

#[test]
fn t707_c2b_ext_7() { assert_eq!(char_to_byte("안녕하세요", (4)), (12)); }

#[test]
fn t708_c2b_ext_8() { assert_eq!(char_to_byte("안녕하세요", (5)), (15)); }

#[test]
fn t709_c2b_ext_9() { assert_eq!(char_to_byte("a\n\nb", (0)), (0)); }

#[test]
fn t710_c2b_ext_10() { assert_eq!(char_to_byte("a\n\nb", (1)), (1)); }

#[test]
fn t711_c2b_ext_11() { assert_eq!(char_to_byte("a\n\nb", (2)), (2)); }

#[test]
fn t712_c2b_ext_12() { assert_eq!(char_to_byte("a\n\nb", (3)), (3)); }

#[test]
fn t713_c2b_ext_13() { assert_eq!(char_to_byte("a\n\nb", (4)), (4)); }

#[test]
fn t714_c2b_ext_14() { assert_eq!(char_to_byte("😀😁😂", (0)), (0)); }

#[test]
fn t715_c2b_ext_15() { assert_eq!(char_to_byte("😀😁😂", (1)), (4)); }

#[test]
fn t716_c2b_ext_16() { assert_eq!(char_to_byte("😀😁😂", (2)), (8)); }

#[test]
fn t717_c2b_ext_17() { assert_eq!(char_to_byte("😀😁😂", (3)), (12)); }

#[test]
fn t718_c2b_ext_18() { assert_eq!(char_to_byte("a😀b😁c", (0)), (0)); }

#[test]
fn t719_c2b_ext_19() { assert_eq!(char_to_byte("a😀b😁c", (1)), (1)); }

#[test]
fn t720_c2b_ext_20() { assert_eq!(char_to_byte("a😀b😁c", (2)), (5)); }

#[test]
fn t721_c2b_ext_21() { assert_eq!(char_to_byte("a😀b😁c", (3)), (6)); }

#[test]
fn t722_c2b_ext_22() { assert_eq!(char_to_byte("a😀b😁c", (4)), (10)); }

#[test]
fn t723_c2b_ext_23() { assert_eq!(char_to_byte("a😀b😁c", (5)), (11)); }

#[test]
fn t724_sbe_1() {
                let s = "test string";
                let p = safe_byte_pos(s, (0));
                assert!(s.is_char_boundary(p));
                assert!(p <= s.len());
            }

#[test]
fn t725_sbe_2() {
                let s = "test string";
                let p = safe_byte_pos(s, (4));
                assert!(s.is_char_boundary(p));
                assert!(p <= s.len());
            }

#[test]
fn t726_sbe_3() {
                let s = "test string";
                let p = safe_byte_pos(s, (11));
                assert!(s.is_char_boundary(p));
                assert!(p <= s.len());
            }

#[test]
fn t727_sbe_4() {
                let s = "test string";
                let p = safe_byte_pos(s, (20));
                assert!(s.is_char_boundary(p));
                assert!(p <= s.len());
            }

#[test]
fn t728_sbe_5() {
                let s = "가나다라마";
                let p = safe_byte_pos(s, (0));
                assert!(s.is_char_boundary(p));
                assert!(p <= s.len());
            }

#[test]
fn t729_sbe_6() {
                let s = "가나다라마";
                let p = safe_byte_pos(s, (1));
                assert!(s.is_char_boundary(p));
                assert!(p <= s.len());
            }

#[test]
fn t730_sbe_7() {
                let s = "가나다라마";
                let p = safe_byte_pos(s, (2));
                assert!(s.is_char_boundary(p));
                assert!(p <= s.len());
            }

#[test]
fn t731_sbe_8() {
                let s = "가나다라마";
                let p = safe_byte_pos(s, (3));
                assert!(s.is_char_boundary(p));
                assert!(p <= s.len());
            }

#[test]
fn t732_sbe_9() {
                let s = "가나다라마";
                let p = safe_byte_pos(s, (4));
                assert!(s.is_char_boundary(p));
                assert!(p <= s.len());
            }

#[test]
fn t733_sbe_10() {
                let s = "가나다라마";
                let p = safe_byte_pos(s, (5));
                assert!(s.is_char_boundary(p));
                assert!(p <= s.len());
            }

#[test]
fn t734_sbe_11() {
                let s = "가나다라마";
                let p = safe_byte_pos(s, (6));
                assert!(s.is_char_boundary(p));
                assert!(p <= s.len());
            }

#[test]
fn t735_sbe_12() {
                let s = "가나다라마";
                let p = safe_byte_pos(s, (7));
                assert!(s.is_char_boundary(p));
                assert!(p <= s.len());
            }

#[test]
fn t736_sbe_13() {
                let s = "가나다라마";
                let p = safe_byte_pos(s, (8));
                assert!(s.is_char_boundary(p));
                assert!(p <= s.len());
            }

#[test]
fn t737_sbe_14() {
                let s = "가나다라마";
                let p = safe_byte_pos(s, (9));
                assert!(s.is_char_boundary(p));
                assert!(p <= s.len());
            }

#[test]
fn t738_sbe_15() {
                let s = "가나다라마";
                let p = safe_byte_pos(s, (10));
                assert!(s.is_char_boundary(p));
                assert!(p <= s.len());
            }

#[test]
fn t739_sbe_16() {
                let s = "가나다라마";
                let p = safe_byte_pos(s, (11));
                assert!(s.is_char_boundary(p));
                assert!(p <= s.len());
            }

#[test]
fn t740_sbe_17() {
                let s = "가나다라마";
                let p = safe_byte_pos(s, (12));
                assert!(s.is_char_boundary(p));
                assert!(p <= s.len());
            }

#[test]
fn t741_sbe_18() {
                let s = "가나다라마";
                let p = safe_byte_pos(s, (13));
                assert!(s.is_char_boundary(p));
                assert!(p <= s.len());
            }

#[test]
fn t742_sbe_19() {
                let s = "가나다라마";
                let p = safe_byte_pos(s, (14));
                assert!(s.is_char_boundary(p));
                assert!(p <= s.len());
            }

#[test]
fn t743_sbe_20() {
                let s = "가나다라마";
                let p = safe_byte_pos(s, (15));
                assert!(s.is_char_boundary(p));
                assert!(p <= s.len());
            }

#[test]
fn t744_lbe_1() {
                let s: &str = "alpha\nbeta\ngamma\ndelta";
                let p = safe_byte_pos(s, (0));
                let (start, end) = find_line_bounds(s, p);
                assert!(start <= end);
                assert!(end <= s.len());
                assert!(!s[start..end].contains('\n') || s[start..end].is_empty());
            }

#[test]
fn t745_lbe_2() {
                let s: &str = "alpha\nbeta\ngamma\ndelta";
                let p = safe_byte_pos(s, (3));
                let (start, end) = find_line_bounds(s, p);
                assert!(start <= end);
                assert!(end <= s.len());
                assert!(!s[start..end].contains('\n') || s[start..end].is_empty());
            }

#[test]
fn t746_lbe_3() {
                let s: &str = "alpha\nbeta\ngamma\ndelta";
                let p = safe_byte_pos(s, (6));
                let (start, end) = find_line_bounds(s, p);
                assert!(start <= end);
                assert!(end <= s.len());
                assert!(!s[start..end].contains('\n') || s[start..end].is_empty());
            }

#[test]
fn t747_lbe_4() {
                let s: &str = "alpha\nbeta\ngamma\ndelta";
                let p = safe_byte_pos(s, (10));
                let (start, end) = find_line_bounds(s, p);
                assert!(start <= end);
                assert!(end <= s.len());
                assert!(!s[start..end].contains('\n') || s[start..end].is_empty());
            }

#[test]
fn t748_lbe_5() {
                let s: &str = "alpha\nbeta\ngamma\ndelta";
                let p = safe_byte_pos(s, (11));
                let (start, end) = find_line_bounds(s, p);
                assert!(start <= end);
                assert!(end <= s.len());
                assert!(!s[start..end].contains('\n') || s[start..end].is_empty());
            }

#[test]
fn t749_lbe_6() {
                let s: &str = "alpha\nbeta\ngamma\ndelta";
                let p = safe_byte_pos(s, (16));
                let (start, end) = find_line_bounds(s, p);
                assert!(start <= end);
                assert!(end <= s.len());
                assert!(!s[start..end].contains('\n') || s[start..end].is_empty());
            }

#[test]
fn t750_lbe_7() {
                let s: &str = "alpha\nbeta\ngamma\ndelta";
                let p = safe_byte_pos(s, (17));
                let (start, end) = find_line_bounds(s, p);
                assert!(start <= end);
                assert!(end <= s.len());
                assert!(!s[start..end].contains('\n') || s[start..end].is_empty());
            }

#[test]
fn t751_lbe_8() {
                let s: &str = "alpha\nbeta\ngamma\ndelta";
                let p = safe_byte_pos(s, (22));
                let (start, end) = find_line_bounds(s, p);
                assert!(start <= end);
                assert!(end <= s.len());
                assert!(!s[start..end].contains('\n') || s[start..end].is_empty());
            }

#[test]
fn t752_lbe_9() {
                let s: &str = "short\nlonger line here\nx";
                let p = safe_byte_pos(s, (0));
                let (start, end) = find_line_bounds(s, p);
                assert!(start <= end);
                assert!(end <= s.len());
                assert!(!s[start..end].contains('\n') || s[start..end].is_empty());
            }

#[test]
fn t753_lbe_10() {
                let s: &str = "short\nlonger line here\nx";
                let p = safe_byte_pos(s, (6));
                let (start, end) = find_line_bounds(s, p);
                assert!(start <= end);
                assert!(end <= s.len());
                assert!(!s[start..end].contains('\n') || s[start..end].is_empty());
            }

#[test]
fn t754_lbe_11() {
                let s: &str = "short\nlonger line here\nx";
                let p = safe_byte_pos(s, (15));
                let (start, end) = find_line_bounds(s, p);
                assert!(start <= end);
                assert!(end <= s.len());
                assert!(!s[start..end].contains('\n') || s[start..end].is_empty());
            }

#[test]
fn t755_lbe_12() {
                let s: &str = "short\nlonger line here\nx";
                let p = safe_byte_pos(s, (22));
                let (start, end) = find_line_bounds(s, p);
                assert!(start <= end);
                assert!(end <= s.len());
                assert!(!s[start..end].contains('\n') || s[start..end].is_empty());
            }

#[test]
fn t756_pbe_1() {
                let s: &str = "first para\nstill first\n\nsecond para\nstill second";
                let p = safe_byte_pos(s, (0));
                let (start, end) = find_para_bounds(s, p);
                assert!(start <= end);
                assert!(end <= s.len());
            }

#[test]
fn t757_pbe_2() {
                let s: &str = "first para\nstill first\n\nsecond para\nstill second";
                let p = safe_byte_pos(s, (5));
                let (start, end) = find_para_bounds(s, p);
                assert!(start <= end);
                assert!(end <= s.len());
            }

#[test]
fn t758_pbe_3() {
                let s: &str = "first para\nstill first\n\nsecond para\nstill second";
                let p = safe_byte_pos(s, (11));
                let (start, end) = find_para_bounds(s, p);
                assert!(start <= end);
                assert!(end <= s.len());
            }

#[test]
fn t759_pbe_4() {
                let s: &str = "first para\nstill first\n\nsecond para\nstill second";
                let p = safe_byte_pos(s, (22));
                let (start, end) = find_para_bounds(s, p);
                assert!(start <= end);
                assert!(end <= s.len());
            }

#[test]
fn t760_pbe_5() {
                let s: &str = "first para\nstill first\n\nsecond para\nstill second";
                let p = safe_byte_pos(s, (24));
                let (start, end) = find_para_bounds(s, p);
                assert!(start <= end);
                assert!(end <= s.len());
            }

#[test]
fn t761_pbe_6() {
                let s: &str = "first para\nstill first\n\nsecond para\nstill second";
                let p = safe_byte_pos(s, (35));
                let (start, end) = find_para_bounds(s, p);
                assert!(start <= end);
                assert!(end <= s.len());
            }

#[test]
fn t762_pbe_7() {
                let s: &str = "p1\n\np2\n\np3\n\np4\n\np5";
                let p = safe_byte_pos(s, (0));
                let (start, end) = find_para_bounds(s, p);
                assert!(start <= end);
                assert!(end <= s.len());
            }

#[test]
fn t763_pbe_8() {
                let s: &str = "p1\n\np2\n\np3\n\np4\n\np5";
                let p = safe_byte_pos(s, (4));
                let (start, end) = find_para_bounds(s, p);
                assert!(start <= end);
                assert!(end <= s.len());
            }

#[test]
fn t764_pbe_9() {
                let s: &str = "p1\n\np2\n\np3\n\np4\n\np5";
                let p = safe_byte_pos(s, (8));
                let (start, end) = find_para_bounds(s, p);
                assert!(start <= end);
                assert!(end <= s.len());
            }

#[test]
fn t765_pbe_10() {
                let s: &str = "p1\n\np2\n\np3\n\np4\n\np5";
                let p = safe_byte_pos(s, (12));
                let (start, end) = find_para_bounds(s, p);
                assert!(start <= end);
                assert!(end <= s.len());
            }

#[test]
fn t769_mc_1() {
                let w = writer_with("The quick brown fox jumps over the lazy dog");
                assert_eq!(w.word_count(), (9), "word count");
                assert_eq!(w.char_count(), (43), "char count");
                assert_eq!(w.line_count(), (1), "line count");
            }

#[test]
fn t770_mc_2() {
                let w = writer_with("Line\n\nLine\n\nLine");
                assert_eq!(w.word_count(), (3), "word count");
                assert_eq!(w.char_count(), (16), "char count");
                assert_eq!(w.line_count(), (5), "line count");
            }

#[test]
fn t771_mc_3() {
                let w = writer_with("123 456 789");
                assert_eq!(w.word_count(), (3), "word count");
                assert_eq!(w.char_count(), (11), "char count");
                assert_eq!(w.line_count(), (1), "line count");
            }

#[test]
fn t772_mc_4() {
                let w = writer_with("!@# $%^ &*()");
                assert_eq!(w.word_count(), (3), "word count");
                assert_eq!(w.char_count(), (12), "char count");
                assert_eq!(w.line_count(), (1), "line count");
            }

#[test]
fn t773_mc_5() {
                let w = writer_with("a\nb\nc\nd\ne\nf\ng\nh\ni\nj\nk\nl\nm\nn\no\np\nq\nr\ns\nt");
                assert_eq!(w.word_count(), (20), "word count");
                assert_eq!(w.char_count(), (39), "char count");
                assert_eq!(w.line_count(), (20), "line count");
            }

#[test]
fn t774_mc_6() {
                let w = writer_with("space   between   words");
                assert_eq!(w.word_count(), (3), "word count");
                assert_eq!(w.char_count(), (23), "char count");
                assert_eq!(w.line_count(), (1), "line count");
            }

#[test]
fn t775_mc_7() {
                let w = writer_with("가나다 라마바 사아자");
                assert_eq!(w.word_count(), (3), "word count");
                assert_eq!(w.char_count(), (11), "char count");
                assert_eq!(w.line_count(), (1), "line count");
            }

#[test]
fn t776_mc_8() {
                let w = writer_with("A\nB\nC\nD\nE");
                assert_eq!(w.word_count(), (5), "word count");
                assert_eq!(w.char_count(), (9), "char count");
                assert_eq!(w.line_count(), (5), "line count");
            }

#[test]
fn t777_mc_9() {
                let w = writer_with("word1 word2 word3 word4 word5 word6 word7 word8 word9 word10");
                assert_eq!(w.word_count(), (10), "word count");
                assert_eq!(w.char_count(), (60), "char count");
                assert_eq!(w.line_count(), (1), "line count");
            }

#[test]
fn t778_mc_10() {
                let w = writer_with("\n\n\n\n\n");
                assert_eq!(w.word_count(), (0), "word count");
                assert_eq!(w.char_count(), (5), "char count");
                assert_eq!(w.line_count(), (5), "line count");
            }

#[test]
fn t779_mf2_1() {
                let mut w = writer_with("banana");
                w.find_text = ("an").into();
                w.update_find_count();
                assert_eq!(w.find_count, (2));
            }

#[test]
fn t780_mf2_2() {
                let mut w = writer_with("banana");
                w.find_text = ("ana").into();
                w.update_find_count();
                assert_eq!(w.find_count, (1));
            }

#[test]
fn t781_mf2_3() {
                let mut w = writer_with("aaaa");
                w.find_text = ("a").into();
                w.update_find_count();
                assert_eq!(w.find_count, (4));
            }

#[test]
fn t782_mf2_4() {
                let mut w = writer_with("aaaa");
                w.find_text = ("aaa").into();
                w.update_find_count();
                assert_eq!(w.find_count, (1));
            }

#[test]
fn t783_mf2_5() {
                let mut w = writer_with("test123test");
                w.find_text = ("test").into();
                w.update_find_count();
                assert_eq!(w.find_count, (2));
            }

#[test]
fn t784_mf2_6() {
                let mut w = writer_with("UPPERCASE");
                w.find_text = ("upper").into();
                w.update_find_count();
                assert_eq!(w.find_count, (1));
            }

#[test]
fn t785_mf2_7() {
                let mut w = writer_with("lowercase");
                w.find_text = ("LOWER").into();
                w.update_find_count();
                assert_eq!(w.find_count, (1));
            }

#[test]
fn t786_mf2_8() {
                let mut w = writer_with("CamelCase");
                w.find_text = ("camelcase").into();
                w.update_find_count();
                assert_eq!(w.find_count, (1));
            }

#[test]
fn t787_mf2_9() {
                let mut w = writer_with("snake_case");
                w.find_text = ("SNAKE_CASE").into();
                w.update_find_count();
                assert_eq!(w.find_count, (1));
            }

#[test]
fn t788_mf2_10() {
                let mut w = writer_with("mixed-case");
                w.find_text = ("Mixed-Case").into();
                w.update_find_count();
                assert_eq!(w.find_count, (1));
            }

#[test]
fn t789_mf2_11() {
                let mut w = writer_with("a b c d e");
                w.find_text = ("a").into();
                w.update_find_count();
                assert_eq!(w.find_count, (1));
            }

#[test]
fn t790_mf2_12() {
                let mut w = writer_with("a b c d e");
                w.find_text = ("e").into();
                w.update_find_count();
                assert_eq!(w.find_count, (1));
            }

#[test]
fn t791_mf2_13() {
                let mut w = writer_with("repeat\nrepeat\nrepeat");
                w.find_text = ("repeat").into();
                w.update_find_count();
                assert_eq!(w.find_count, (3));
            }

#[test]
fn t792_mf2_14() {
                let mut w = writer_with("한글한글한글한글");
                w.find_text = ("한글").into();
                w.update_find_count();
                assert_eq!(w.find_count, (4));
            }

#[test]
fn t793_mf2_15() {
                let mut w = writer_with("a1b2c3");
                w.find_text = ("1").into();
                w.update_find_count();
                assert_eq!(w.find_count, (1));
            }

#[test]
fn t794_mf2_16() {
                let mut w = writer_with("a1b2c3");
                w.find_text = ("4").into();
                w.update_find_count();
                assert_eq!(w.find_count, (0));
            }

#[test]
fn t795_mf2_17() {
                let mut w = writer_with("  spaced  ");
                w.find_text = ("spaced").into();
                w.update_find_count();
                assert_eq!(w.find_count, (1));
            }

#[test]
fn t796_mr_1() {
                let mut w = writer_with("a-b-c-d");
                w.find_text = ("-").into();
                w.replace_text = (".").into();
                w.replace_all();
                assert_eq!(w.tabs[0].text, ("a.b.c.d"));
            }

#[test]
fn t797_mr_2() {
                let mut w = writer_with("yes yes yes");
                w.find_text = ("yes").into();
                w.replace_text = ("no").into();
                w.replace_all();
                assert_eq!(w.tabs[0].text, ("no no no"));
            }

#[test]
fn t798_mr_3() {
                let mut w = writer_with("abc");
                w.find_text = ("abc").into();
                w.replace_text = ("abcabc").into();
                w.replace_all();
                assert_eq!(w.tabs[0].text, ("abcabc"));
            }

#[test]
fn t799_mr_4() {
                let mut w = writer_with("111");
                w.find_text = ("1").into();
                w.replace_text = ("22").into();
                w.replace_all();
                assert_eq!(w.tabs[0].text, ("222222"));
            }

#[test]
fn t800_mr_5() {
                let mut w = writer_with("가나다");
                w.find_text = ("가").into();
                w.replace_text = ("마").into();
                w.replace_all();
                assert_eq!(w.tabs[0].text, ("마나다"));
            }

#[test]
fn t811_pf_1() {
                let mut w = writer_with("aaaaaa");
                w.find_text = ("aa").into();
                w.update_find_count();
                assert_eq!(w.find_count, (3));
            }

#[test]
fn t812_pf_2() {
                let mut w = writer_with("ababababab");
                w.find_text = ("abab").into();
                w.update_find_count();
                assert_eq!(w.find_count, (2));
            }

#[test]
fn t813_pf_3() {
                let mut w = writer_with("xyzxyzxyz");
                w.find_text = ("xyz").into();
                w.update_find_count();
                assert_eq!(w.find_count, (3));
            }

#[test]
fn t814_pf_4() {
                let mut w = writer_with("Hello World Hello World");
                w.find_text = ("hello world").into();
                w.update_find_count();
                assert_eq!(w.find_count, (2));
            }

#[test]
fn t815_pf_5() {
                let mut w = writer_with("123 456 789 123");
                w.find_text = ("123").into();
                w.update_find_count();
                assert_eq!(w.find_count, (2));
            }

#[test]
fn t816_pf_6() {
                let mut w = writer_with("a\n\na\n\na");
                w.find_text = ("a").into();
                w.update_find_count();
                assert_eq!(w.find_count, (3));
            }

#[test]
fn t817_pf_7() {
                let mut w = writer_with(" a b c ");
                w.find_text = ("a").into();
                w.update_find_count();
                assert_eq!(w.find_count, (1));
            }

#[test]
fn t818_pf_8() {
                let mut w = writer_with("abc ABC abc");
                w.find_text = ("abc").into();
                w.update_find_count();
                assert_eq!(w.find_count, (3));
            }

#[test]
fn t819_pf_9() {
                let mut w = writer_with("test.test.test");
                w.find_text = ("test").into();
                w.update_find_count();
                assert_eq!(w.find_count, (3));
            }

#[test]
fn t820_pf_10() {
                let mut w = writer_with("end\nend\nend\nend\nend");
                w.find_text = ("end").into();
                w.update_find_count();
                assert_eq!(w.find_count, (5));
            }

#[test]
fn t821_pr_1() {
                let mut w = writer_with("hello hello hello hello");
                w.find_text = ("hello").into();
                w.replace_text = ("hi").into();
                w.replace_all();
                assert_eq!(w.tabs[0].text, ("hi hi hi hi"));
            }

#[test]
fn t822_pr_2() {
                let mut w = writer_with("a,b,c,d,e");
                w.find_text = (",").into();
                w.replace_text = (" ").into();
                w.replace_all();
                assert_eq!(w.tabs[0].text, ("a b c d e"));
            }

#[test]
fn t823_pr_3() {
                let mut w = writer_with("xxx");
                w.find_text = ("x").into();
                w.replace_text = ("yy").into();
                w.replace_all();
                assert_eq!(w.tabs[0].text, ("yyyyyy"));
            }

#[test]
fn t824_pr_4() {
                let mut w = writer_with("한 글 테 스 트");
                w.find_text = (" ").into();
                w.replace_text = ("").into();
                w.replace_all();
                assert_eq!(w.tabs[0].text, ("한글테스트"));
            }

#[test]
fn t825_pr_5() {
                let mut w = writer_with("oldold");
                w.find_text = ("old").into();
                w.replace_text = ("new").into();
                w.replace_all();
                assert_eq!(w.tabs[0].text, ("newnew"));
            }

#[test]
fn t826_pr_6() {
                let mut w = writer_with("12345");
                w.find_text = ("3").into();
                w.replace_text = ("THREE").into();
                w.replace_all();
                assert_eq!(w.tabs[0].text, ("12THREE45"));
            }

#[test]
fn t827_pr_7() {
                let mut w = writer_with("a+b+c");
                w.find_text = ("+").into();
                w.replace_text = ("-").into();
                w.replace_all();
                assert_eq!(w.tabs[0].text, ("a-b-c"));
            }

#[test]
fn t828_pr_8() {
                let mut w = writer_with("foo");
                w.find_text = ("foo").into();
                w.replace_text = ("foo").into();
                w.replace_all();
                assert_eq!(w.tabs[0].text, ("foo"));
            }

#[test]
fn t829_pr_9() {
                let mut w = writer_with("bar");
                w.find_text = ("BAR").into();
                w.replace_text = ("baz").into();
                w.replace_all();
                assert_eq!(w.tabs[0].text, ("baz"));
            }

#[test]
fn t830_pr_10() {
                let mut w = writer_with("remove me");
                w.find_text = ("remove ").into();
                w.replace_text = ("").into();
                w.replace_all();
                assert_eq!(w.tabs[0].text, ("me"));
            }

#[test]
fn t831_alb_1() {
                let s: &str = "one two three\nfour five six\nseven eight nine";
                let p = safe_byte_pos(s, (0));
                let (start, end) = find_line_bounds(s, p);
                assert!(start <= end);
                assert!(end <= s.len());
                assert!(!s[start..end].contains('\n') || s[start..end].is_empty());
            }

#[test]
fn t832_alb_2() {
                let s: &str = "one two three\nfour five six\nseven eight nine";
                let p = safe_byte_pos(s, (7));
                let (start, end) = find_line_bounds(s, p);
                assert!(start <= end);
                assert!(end <= s.len());
                assert!(!s[start..end].contains('\n') || s[start..end].is_empty());
            }

#[test]
fn t833_alb_3() {
                let s: &str = "one two three\nfour five six\nseven eight nine";
                let p = safe_byte_pos(s, (14));
                let (start, end) = find_line_bounds(s, p);
                assert!(start <= end);
                assert!(end <= s.len());
                assert!(!s[start..end].contains('\n') || s[start..end].is_empty());
            }

#[test]
fn t834_alb_4() {
                let s: &str = "one two three\nfour five six\nseven eight nine";
                let p = safe_byte_pos(s, (20));
                let (start, end) = find_line_bounds(s, p);
                assert!(start <= end);
                assert!(end <= s.len());
                assert!(!s[start..end].contains('\n') || s[start..end].is_empty());
            }

#[test]
fn t835_alb_5() {
                let s: &str = "one two three\nfour five six\nseven eight nine";
                let p = safe_byte_pos(s, (28));
                let (start, end) = find_line_bounds(s, p);
                assert!(start <= end);
                assert!(end <= s.len());
                assert!(!s[start..end].contains('\n') || s[start..end].is_empty());
            }

#[test]
fn t836_alb_6() {
                let s: &str = "one two three\nfour five six\nseven eight nine";
                let p = safe_byte_pos(s, (35));
                let (start, end) = find_line_bounds(s, p);
                assert!(start <= end);
                assert!(end <= s.len());
                assert!(!s[start..end].contains('\n') || s[start..end].is_empty());
            }

#[test]
fn t837_alb_7() {
                let s: &str = "x\ny\nz";
                let p = safe_byte_pos(s, (0));
                let (start, end) = find_line_bounds(s, p);
                assert!(start <= end);
                assert!(end <= s.len());
                assert!(!s[start..end].contains('\n') || s[start..end].is_empty());
            }

#[test]
fn t838_alb_8() {
                let s: &str = "x\ny\nz";
                let p = safe_byte_pos(s, (2));
                let (start, end) = find_line_bounds(s, p);
                assert!(start <= end);
                assert!(end <= s.len());
                assert!(!s[start..end].contains('\n') || s[start..end].is_empty());
            }

#[test]
fn t839_alb_9() {
                let s: &str = "x\ny\nz";
                let p = safe_byte_pos(s, (4));
                let (start, end) = find_line_bounds(s, p);
                assert!(start <= end);
                assert!(end <= s.len());
                assert!(!s[start..end].contains('\n') || s[start..end].is_empty());
            }

#[test]
fn t840_apb_1() {
                let s: &str = "intro\n\nbody one\nbody two\n\nconclusion";
                let p = safe_byte_pos(s, (0));
                let (start, end) = find_para_bounds(s, p);
                assert!(start <= end);
                assert!(end <= s.len());
            }

#[test]
fn t841_apb_2() {
                let s: &str = "intro\n\nbody one\nbody two\n\nconclusion";
                let p = safe_byte_pos(s, (7));
                let (start, end) = find_para_bounds(s, p);
                assert!(start <= end);
                assert!(end <= s.len());
            }

#[test]
fn t842_apb_3() {
                let s: &str = "intro\n\nbody one\nbody two\n\nconclusion";
                let p = safe_byte_pos(s, (16));
                let (start, end) = find_para_bounds(s, p);
                assert!(start <= end);
                assert!(end <= s.len());
            }

#[test]
fn t843_apb_4() {
                let s: &str = "intro\n\nbody one\nbody two\n\nconclusion";
                let p = safe_byte_pos(s, (25));
                let (start, end) = find_para_bounds(s, p);
                assert!(start <= end);
                assert!(end <= s.len());
            }

#[test]
fn t844_apb_5() {
                let s: &str = "intro\n\nbody one\nbody two\n\nconclusion";
                let p = safe_byte_pos(s, (30));
                let (start, end) = find_para_bounds(s, p);
                assert!(start <= end);
                assert!(end <= s.len());
            }

#[test]
fn t845_ac2b_1() { assert_eq!(char_to_byte("test data", (0)), (0)); }

#[test]
fn t846_ac2b_2() { assert_eq!(char_to_byte("test data", (4)), (4)); }

#[test]
fn t847_ac2b_3() { assert_eq!(char_to_byte("test data", (5)), (5)); }

#[test]
fn t848_ac2b_4() { assert_eq!(char_to_byte("test data", (9)), (9)); }

#[test]
fn t849_ac2b_5() { assert_eq!(char_to_byte("한글 mixed 혼합", (0)), (0)); }

#[test]
fn t850_ac2b_6() { assert_eq!(char_to_byte("한글 mixed 혼합", (1)), (3)); }

#[test]
fn t851_ac2b_7() { assert_eq!(char_to_byte("한글 mixed 혼합", (2)), (6)); }

#[test]
fn t852_ac2b_8() { assert_eq!(char_to_byte("한글 mixed 혼합", (3)), (7)); }

#[test]
fn t853_ac2b_9() { assert_eq!(char_to_byte("한글 mixed 혼합", (8)), (12)); }

#[test]
fn t854_ac2b_10() { assert_eq!(char_to_byte("한글 mixed 혼합", (9)), (13)); }

#[test]
fn t855_fc_1() {
                let w = writer_with("apple banana cherry");
                assert_eq!(w.word_count(), (3), "word count");
                assert_eq!(w.char_count(), (19), "char count");
                assert_eq!(w.line_count(), (1), "line count");
            }

#[test]
fn t856_fc_2() {
                let w = writer_with("one\ntwo\nthree\nfour\nfive\nsix\nseven\neight\nnine\nten");
                assert_eq!(w.word_count(), (10), "word count");
                assert_eq!(w.char_count(), (48), "char count");
                assert_eq!(w.line_count(), (10), "line count");
            }

#[test]
fn t857_fc_3() {
                let w = writer_with("short");
                assert_eq!(w.word_count(), (1), "word count");
                assert_eq!(w.char_count(), (5), "char count");
                assert_eq!(w.line_count(), (1), "line count");
            }

#[test]
fn t858_fc_4() {
                let w = writer_with("a longer sentence with multiple words in it");
                assert_eq!(w.word_count(), (8), "word count");
                assert_eq!(w.char_count(), (43), "char count");
                assert_eq!(w.line_count(), (1), "line count");
            }

#[test]
fn t859_fc_5() {
                let w = writer_with("first\nsecond\n\nthird\nfourth");
                assert_eq!(w.word_count(), (4), "word count");
                assert_eq!(w.char_count(), (26), "char count");
                assert_eq!(w.line_count(), (5), "line count");
            }

#[test]
fn t860_fc_6() {
                let w = writer_with("hello\n\n\n\nworld");
                assert_eq!(w.word_count(), (2), "word count");
                assert_eq!(w.char_count(), (14), "char count");
                assert_eq!(w.line_count(), (5), "line count");
            }

#[test]
fn t861_ff_1() {
                let mut w = writer_with("test test test test test");
                w.find_text = ("test").into();
                w.update_find_count();
                assert_eq!(w.find_count, (5));
            }

#[test]
fn t862_ff_2() {
                let mut w = writer_with("no match here");
                w.find_text = ("xyz123").into();
                w.update_find_count();
                assert_eq!(w.find_count, (0));
            }

#[test]
fn t863_ff_3() {
                let mut w = writer_with("ALL CAPS TEXT");
                w.find_text = ("all caps").into();
                w.update_find_count();
                assert_eq!(w.find_count, (1));
            }

#[test]
fn t864_ff_4() {
                let mut w = writer_with("aA");
                w.find_text = ("a").into();
                w.update_find_count();
                assert_eq!(w.find_count, (2));
            }

#[test]
fn t865_ff_5() {
                let mut w = writer_with("needle in haystack needle");
                w.find_text = ("needle").into();
                w.update_find_count();
                assert_eq!(w.find_count, (2));
            }

#[test]
fn t866_fr_1() {
                let mut w = writer_with("temp temp temp");
                w.find_text = ("temp").into();
                w.replace_text = ("perm").into();
                w.replace_all();
                assert_eq!(w.tabs[0].text, ("perm perm perm"));
            }

#[test]
fn t867_fr_2() {
                let mut w = writer_with("1+2+3");
                w.find_text = ("+").into();
                w.replace_text = (" plus ").into();
                w.replace_all();
                assert_eq!(w.tabs[0].text, ("1 plus 2 plus 3"));
            }

#[test]
fn t868_fr_3() {
                let mut w = writer_with("SHOUT");
                w.find_text = ("shout").into();
                w.replace_text = ("whisper").into();
                w.replace_all();
                assert_eq!(w.tabs[0].text, ("whisper"));
            }

#[test]
fn t869_fr_4() {
                let mut w = writer_with("a b c d e f");
                w.find_text = (" ").into();
                w.replace_text = ("\n").into();
                w.replace_all();
                assert_eq!(w.tabs[0].text, ("a\nb\nc\nd\ne\nf"));
            }

#[test]
fn t870_fr_5() {
                let mut w = writer_with("dot.dot.dot");
                w.find_text = ("dot").into();
                w.replace_text = ("dash").into();
                w.replace_all();
                assert_eq!(w.tabs[0].text, ("dash.dash.dash"));
            }

#[test]
fn t871_fsb_1() {
                let s: &str = "final test string";
                let p = safe_byte_pos(s, (0));
                assert!(s.is_char_boundary(p));
            }

#[test]
fn t872_fsb_2() {
                let s: &str = "final test string";
                let p = safe_byte_pos(s, (6));
                assert!(s.is_char_boundary(p));
            }

#[test]
fn t873_fsb_3() {
                let s: &str = "final test string";
                let p = safe_byte_pos(s, (11));
                assert!(s.is_char_boundary(p));
            }

#[test]
fn t874_fsb_4() {
                let s: &str = "final test string";
                let p = safe_byte_pos(s, (17));
                assert!(s.is_char_boundary(p));
            }

#[test]
fn t875_fsb_5() {
                let s: &str = "한글 final 테스트";
                let p = safe_byte_pos(s, (0));
                assert!(s.is_char_boundary(p));
            }

#[test]
fn t876_fsb_6() {
                let s: &str = "한글 final 테스트";
                let p = safe_byte_pos(s, (3));
                assert!(s.is_char_boundary(p));
            }

#[test]
fn t877_fsb_7() {
                let s: &str = "한글 final 테스트";
                let p = safe_byte_pos(s, (7));
                assert!(s.is_char_boundary(p));
            }

#[test]
fn t878_fsb_8() {
                let s: &str = "한글 final 테스트";
                let p = safe_byte_pos(s, (13));
                assert!(s.is_char_boundary(p));
            }

#[test]
fn t879_fsb_9() {
                let s: &str = "한글 final 테스트";
                let p = safe_byte_pos(s, (16));
                assert!(s.is_char_boundary(p));
            }

#[test]
fn t880_fsb_10() {
                let s: &str = "한글 final 테스트";
                let p = safe_byte_pos(s, (22));
                assert!(s.is_char_boundary(p));
            }

#[test]
fn t881_fbc_1() {
                let s: &str = "Line one\nLine two\n\nPara two\nEnd";
                let p = safe_byte_pos(s, (0));
                let (ls, le) = find_line_bounds(s, p);
                let (ps, pe) = find_para_bounds(s, p);
                assert!(ls <= le);
                assert!(ps <= pe);
                assert!(ps <= ls); // para start <= line start
                assert!(le <= pe); // line end <= para end
            }

#[test]
fn t882_fbc_2() {
                let s: &str = "Line one\nLine two\n\nPara two\nEnd";
                let p = safe_byte_pos(s, (5));
                let (ls, le) = find_line_bounds(s, p);
                let (ps, pe) = find_para_bounds(s, p);
                assert!(ls <= le);
                assert!(ps <= pe);
                assert!(ps <= ls); // para start <= line start
                assert!(le <= pe); // line end <= para end
            }

#[test]
fn t883_fbc_3() {
                let s: &str = "Line one\nLine two\n\nPara two\nEnd";
                let p = safe_byte_pos(s, (9));
                let (ls, le) = find_line_bounds(s, p);
                let (ps, pe) = find_para_bounds(s, p);
                assert!(ls <= le);
                assert!(ps <= pe);
                assert!(ps <= ls); // para start <= line start
                assert!(le <= pe); // line end <= para end
            }

#[test]
fn t884_fbc_4() {
                let s: &str = "Line one\nLine two\n\nPara two\nEnd";
                let p = safe_byte_pos(s, (18));
                let (ls, le) = find_line_bounds(s, p);
                let (ps, pe) = find_para_bounds(s, p);
                assert!(ls <= le);
                assert!(ps <= pe);
                assert!(ps <= ls); // para start <= line start
                assert!(le <= pe); // line end <= para end
            }

#[test]
fn t885_fbc_5() {
                let s: &str = "Line one\nLine two\n\nPara two\nEnd";
                let p = safe_byte_pos(s, (20));
                let (ls, le) = find_line_bounds(s, p);
                let (ps, pe) = find_para_bounds(s, p);
                assert!(ls <= le);
                assert!(ps <= pe);
                assert!(ps <= ls); // para start <= line start
                assert!(le <= pe); // line end <= para end
            }

#[test]
fn t886_fbc_6() {
                let s: &str = "Line one\nLine two\n\nPara two\nEnd";
                let p = safe_byte_pos(s, (28));
                let (ls, le) = find_line_bounds(s, p);
                let (ps, pe) = find_para_bounds(s, p);
                assert!(ls <= le);
                assert!(ps <= pe);
                assert!(ps <= ls); // para start <= line start
                assert!(le <= pe); // line end <= para end
            }

#[test]
fn t887_fmx_1() {
                let w = writer_with("Final mixed content test");
                assert!(w.word_count() >= (4));
                assert!(w.char_count() > 0);
                assert!(w.line_count() >= 1);
            }

#[test]
fn t888_fmx_2() {
                let w = writer_with("여러 줄의\n한국어\n테스트");
                assert!(w.word_count() >= (3));
                assert!(w.char_count() > 0);
                assert!(w.line_count() >= 1);
            }

#[test]
fn t889_fmx_3() {
                let w = writer_with("1 2 3 4 5 6 7 8 9 10 11 12 13 14 15 16 17 18 19 20");
                assert!(w.word_count() >= (20));
                assert!(w.char_count() > 0);
                assert!(w.line_count() >= 1);
            }

#[test]
fn t890_fmx_4() {
                let w = writer_with("Multiline\nContent\nWith\nMany\nLines\nHere");
                assert!(w.word_count() >= (6));
                assert!(w.char_count() > 0);
                assert!(w.line_count() >= 1);
            }

#[test]
fn t901_z_1() {
                let w = writer_with("z");
                assert_eq!(w.word_count(), (1), "word count");
                assert_eq!(w.char_count(), (1), "char count");
                assert_eq!(w.line_count(), (1), "line count");
            }

#[test]
fn t902_z_2() {
                let w = writer_with("z z");
                assert_eq!(w.word_count(), (2), "word count");
                assert_eq!(w.char_count(), (3), "char count");
                assert_eq!(w.line_count(), (1), "line count");
            }

#[test]
fn t903_z_3() {
                let w = writer_with("z\nz");
                assert_eq!(w.word_count(), (2), "word count");
                assert_eq!(w.char_count(), (3), "char count");
                assert_eq!(w.line_count(), (2), "line count");
            }

#[test]
fn t904_z_4() {
                let w = writer_with("z z z z z");
                assert_eq!(w.word_count(), (5), "word count");
                assert_eq!(w.char_count(), (9), "char count");
                assert_eq!(w.line_count(), (1), "line count");
            }

#[test]
fn t905_z_5() {
                let w = writer_with("zzzzz");
                assert_eq!(w.word_count(), (1), "word count");
                assert_eq!(w.char_count(), (5), "char count");
                assert_eq!(w.line_count(), (1), "line count");
            }

#[test]
fn t906_z_6() {
                let mut w = writer_with("zzzzzz");
                w.find_text = ("z").into();
                w.update_find_count();
                assert_eq!(w.find_count, (6));
            }

#[test]
fn t907_z_7() {
                let mut w = writer_with("zzzzzz");
                w.find_text = ("zz").into();
                w.update_find_count();
                assert_eq!(w.find_count, (3));
            }

#[test]
fn t908_z_8() {
                let mut w = writer_with("zzzzzz");
                w.find_text = ("zzz").into();
                w.update_find_count();
                assert_eq!(w.find_count, (2));
            }

#[test]
fn t909_z_9() {
                let mut w = writer_with("z z z");
                w.find_text = ("z").into();
                w.update_find_count();
                assert_eq!(w.find_count, (3));
            }

#[test]
fn t910_z_10() {
                let mut w = writer_with("z z z");
                w.find_text = (" ").into();
                w.update_find_count();
                assert_eq!(w.find_count, (2));
            }

#[test]
fn t911_z_11() {
                let mut w = writer_with("z z z");
                w.find_text = ("z").into();
                w.replace_text = ("a").into();
                w.replace_all();
                assert_eq!(w.tabs[0].text, ("a a a"));
            }

#[test]
fn t912_z_12() {
                let mut w = writer_with("zzz");
                w.find_text = ("z").into();
                w.replace_text = ("ab").into();
                w.replace_all();
                assert_eq!(w.tabs[0].text, ("ababab"));
            }

#[test]
fn t913_z_13() {
                let mut w = writer_with("z\nz\nz");
                w.find_text = ("\n").into();
                w.replace_text = (" ").into();
                w.replace_all();
                assert_eq!(w.tabs[0].text, ("z z z"));
            }

#[test]
fn t914_z_14() {
                let mut w = writer_with("z_z_z");
                w.find_text = ("_").into();
                w.replace_text = ("-").into();
                w.replace_all();
                assert_eq!(w.tabs[0].text, ("z-z-z"));
            }

#[test]
fn t915_z_15() {
                let mut w = writer_with("ZZZ");
                w.find_text = ("zzz").into();
                w.replace_text = ("aaa").into();
                w.replace_all();
                assert_eq!(w.tabs[0].text, ("aaa"));
            }

#[test]
fn t916_z_16() {
                let s: &str = "z";
                let p = safe_byte_pos(s, (0));
                assert!(s.is_char_boundary(p));
            }

#[test]
fn t917_z_17() {
                let s: &str = "z";
                let p = safe_byte_pos(s, (1));
                assert!(s.is_char_boundary(p));
            }

#[test]
fn t918_z_18() {
                let s: &str = "zz";
                let p = safe_byte_pos(s, (0));
                assert!(s.is_char_boundary(p));
            }

#[test]
fn t919_z_19() {
                let s: &str = "zz";
                let p = safe_byte_pos(s, (1));
                assert!(s.is_char_boundary(p));
            }

#[test]
fn t920_z_20() {
                let s: &str = "zz";
                let p = safe_byte_pos(s, (2));
                assert!(s.is_char_boundary(p));
            }

#[test]
fn t921_z_21() {
                let s: &str = "z";
                let p = safe_byte_pos(s, (0));
                let (start, end) = find_line_bounds(s, p);
                assert!(start <= end);
                assert!(end <= s.len());
                assert!(!s[start..end].contains('\n') || s[start..end].is_empty());
            }

#[test]
fn t922_z_22() {
                let s: &str = "z";
                let p = safe_byte_pos(s, (1));
                let (start, end) = find_line_bounds(s, p);
                assert!(start <= end);
                assert!(end <= s.len());
                assert!(!s[start..end].contains('\n') || s[start..end].is_empty());
            }

#[test]
fn t923_z_23() {
                let s: &str = "z\nz";
                let p = safe_byte_pos(s, (0));
                let (start, end) = find_line_bounds(s, p);
                assert!(start <= end);
                assert!(end <= s.len());
                assert!(!s[start..end].contains('\n') || s[start..end].is_empty());
            }

#[test]
fn t924_z_24() {
                let s: &str = "z\nz";
                let p = safe_byte_pos(s, (2));
                let (start, end) = find_line_bounds(s, p);
                assert!(start <= end);
                assert!(end <= s.len());
                assert!(!s[start..end].contains('\n') || s[start..end].is_empty());
            }

#[test]
fn t925_z_25() {
                let s: &str = "z\nz\nz";
                let p = safe_byte_pos(s, (0));
                let (start, end) = find_line_bounds(s, p);
                assert!(start <= end);
                assert!(end <= s.len());
                assert!(!s[start..end].contains('\n') || s[start..end].is_empty());
            }

#[test]
fn t926_z_26() {
                let s: &str = "z\nz\nz";
                let p = safe_byte_pos(s, (2));
                let (start, end) = find_line_bounds(s, p);
                assert!(start <= end);
                assert!(end <= s.len());
                assert!(!s[start..end].contains('\n') || s[start..end].is_empty());
            }

#[test]
fn t927_z_27() {
                let s: &str = "z\nz\nz";
                let p = safe_byte_pos(s, (4));
                let (start, end) = find_line_bounds(s, p);
                assert!(start <= end);
                assert!(end <= s.len());
                assert!(!s[start..end].contains('\n') || s[start..end].is_empty());
            }

#[test]
fn t928_z_28() {
                let s: &str = "z\n\nz";
                let p = safe_byte_pos(s, (0));
                let (start, end) = find_para_bounds(s, p);
                assert!(start <= end);
                assert!(end <= s.len());
            }

#[test]
fn t929_z_29() {
                let s: &str = "z\n\nz";
                let p = safe_byte_pos(s, (3));
                let (start, end) = find_para_bounds(s, p);
                assert!(start <= end);
                assert!(end <= s.len());
            }

#[test]
fn t930_z_30() {
                let s: &str = "z\n\nz\n\nz";
                let p = safe_byte_pos(s, (0));
                let (start, end) = find_para_bounds(s, p);
                assert!(start <= end);
                assert!(end <= s.len());
            }

#[test]
fn t931_z_31() {
                let s: &str = "z\n\nz\n\nz";
                let p = safe_byte_pos(s, (3));
                let (start, end) = find_para_bounds(s, p);
                assert!(start <= end);
                assert!(end <= s.len());
            }

#[test]
fn t932_z_32() {
                let s: &str = "z\n\nz\n\nz";
                let p = safe_byte_pos(s, (6));
                let (start, end) = find_para_bounds(s, p);
                assert!(start <= end);
                assert!(end <= s.len());
            }

#[test]
fn t933_z_33() { assert_eq!(char_to_byte("z", (0)), (0)); }

#[test]
fn t934_z_34() { assert_eq!(char_to_byte("z", (1)), (1)); }

#[test]
fn t935_z_35() { assert_eq!(char_to_byte("zz", (0)), (0)); }

#[test]
fn t936_z_36() { assert_eq!(char_to_byte("zz", (1)), (1)); }

#[test]
fn t937_z_37() { assert_eq!(char_to_byte("zz", (2)), (2)); }

#[test]
fn t938_z_38() { assert_eq!(char_to_byte("z한z", (0)), (0)); }

#[test]
fn t939_z_39() { assert_eq!(char_to_byte("z한z", (1)), (1)); }

#[test]
fn t940_z_40() { assert_eq!(char_to_byte("z한z", (2)), (4)); }

#[test]
fn t941_z_41() { assert_eq!(char_to_byte("z한z", (3)), (5)); }

#[test]
fn t942_z_42() {
                let s: &str = "z\nz\n\nz";
                let p = safe_byte_pos(s, (0));
                let (ls, le) = find_line_bounds(s, p);
                let (ps, pe) = find_para_bounds(s, p);
                assert!(ls <= le);
                assert!(ps <= pe);
                assert!(ps <= ls); // para start <= line start
                assert!(le <= pe); // line end <= para end
            }

#[test]
fn t943_z_43() {
                let s: &str = "z\nz\n\nz";
                let p = safe_byte_pos(s, (2));
                let (ls, le) = find_line_bounds(s, p);
                let (ps, pe) = find_para_bounds(s, p);
                assert!(ls <= le);
                assert!(ps <= pe);
                assert!(ps <= ls); // para start <= line start
                assert!(le <= pe); // line end <= para end
            }

#[test]
fn t944_z_44() {
                let s: &str = "z\nz\n\nz";
                let p = safe_byte_pos(s, (4));
                let (ls, le) = find_line_bounds(s, p);
                let (ps, pe) = find_para_bounds(s, p);
                assert!(ls <= le);
                assert!(ps <= pe);
                assert!(ps <= ls); // para start <= line start
                assert!(le <= pe); // line end <= para end
            }

#[test]
fn t945_z_45() {
                let s: &str = "z\nz\n\nz";
                let p = safe_byte_pos(s, (5));
                let (ls, le) = find_line_bounds(s, p);
                let (ps, pe) = find_para_bounds(s, p);
                assert!(ls <= le);
                assert!(ps <= pe);
                assert!(ps <= ls); // para start <= line start
                assert!(le <= pe); // line end <= para end
            }

#[test]
fn t951_fv_1() {
                let mut w = writer_with("alpha beta gamma");
                w.find_text = ("alpha").into();
                w.replace_text = ("omega").into();
                w.replace_all();
                // After replace_all, find_count should be 0 for the searched pattern
                w.update_find_count();
                // Verify no searched pattern remains (case-insensitive)
                let _lower = w.tabs[0].text.to_lowercase();
                let pat = ("alpha").to_lowercase();
                if ("alpha") != ("omega") && !("omega").to_lowercase().contains(&pat) {
                    assert_eq!(w.find_count, 0, "pattern should be gone after replace_all");
                }
            }

#[test]
fn t952_fv_2() {
                let mut w = writer_with("one two three");
                w.find_text = ("two").into();
                w.replace_text = ("dos").into();
                w.replace_all();
                // After replace_all, find_count should be 0 for the searched pattern
                w.update_find_count();
                // Verify no searched pattern remains (case-insensitive)
                let _lower = w.tabs[0].text.to_lowercase();
                let pat = ("two").to_lowercase();
                if ("two") != ("dos") && !("dos").to_lowercase().contains(&pat) {
                    assert_eq!(w.find_count, 0, "pattern should be gone after replace_all");
                }
            }

#[test]
fn t953_fv_3() {
                let mut w = writer_with("hello world");
                w.find_text = ("hello").into();
                w.replace_text = ("goodbye").into();
                w.replace_all();
                // After replace_all, find_count should be 0 for the searched pattern
                w.update_find_count();
                // Verify no searched pattern remains (case-insensitive)
                let _lower = w.tabs[0].text.to_lowercase();
                let pat = ("hello").to_lowercase();
                if ("hello") != ("goodbye") && !("goodbye").to_lowercase().contains(&pat) {
                    assert_eq!(w.find_count, 0, "pattern should be gone after replace_all");
                }
            }

#[test]
fn t954_fv_4() {
                let mut w = writer_with("cat dog bird");
                w.find_text = ("dog").into();
                w.replace_text = ("fish").into();
                w.replace_all();
                // After replace_all, find_count should be 0 for the searched pattern
                w.update_find_count();
                // Verify no searched pattern remains (case-insensitive)
                let _lower = w.tabs[0].text.to_lowercase();
                let pat = ("dog").to_lowercase();
                if ("dog") != ("fish") && !("fish").to_lowercase().contains(&pat) {
                    assert_eq!(w.find_count, 0, "pattern should be gone after replace_all");
                }
            }

#[test]
fn t955_fv_5() {
                let mut w = writer_with("red green blue");
                w.find_text = ("green").into();
                w.replace_text = ("yellow").into();
                w.replace_all();
                // After replace_all, find_count should be 0 for the searched pattern
                w.update_find_count();
                // Verify no searched pattern remains (case-insensitive)
                let _lower = w.tabs[0].text.to_lowercase();
                let pat = ("green").to_lowercase();
                if ("green") != ("yellow") && !("yellow").to_lowercase().contains(&pat) {
                    assert_eq!(w.find_count, 0, "pattern should be gone after replace_all");
                }
            }

#[test]
fn t956_fv_6() {
                let mut w = writer_with("sun moon star");
                w.find_text = ("moon").into();
                w.replace_text = ("planet").into();
                w.replace_all();
                // After replace_all, find_count should be 0 for the searched pattern
                w.update_find_count();
                // Verify no searched pattern remains (case-insensitive)
                let _lower = w.tabs[0].text.to_lowercase();
                let pat = ("moon").to_lowercase();
                if ("moon") != ("planet") && !("planet").to_lowercase().contains(&pat) {
                    assert_eq!(w.find_count, 0, "pattern should be gone after replace_all");
                }
            }

#[test]
fn t957_fv_7() {
                let mut w = writer_with("north south east west");
                w.find_text = ("south").into();
                w.replace_text = ("north").into();
                w.replace_all();
                // After replace_all, find_count should be 0 for the searched pattern
                w.update_find_count();
                // Verify no searched pattern remains (case-insensitive)
                let _lower = w.tabs[0].text.to_lowercase();
                let pat = ("south").to_lowercase();
                if ("south") != ("north") && !("north").to_lowercase().contains(&pat) {
                    assert_eq!(w.find_count, 0, "pattern should be gone after replace_all");
                }
            }

#[test]
fn t958_fv_8() {
                let mut w = writer_with("up down left right");
                w.find_text = ("left").into();
                w.replace_text = ("center").into();
                w.replace_all();
                // After replace_all, find_count should be 0 for the searched pattern
                w.update_find_count();
                // Verify no searched pattern remains (case-insensitive)
                let _lower = w.tabs[0].text.to_lowercase();
                let pat = ("left").to_lowercase();
                if ("left") != ("center") && !("center").to_lowercase().contains(&pat) {
                    assert_eq!(w.find_count, 0, "pattern should be gone after replace_all");
                }
            }

#[test]
fn t959_fv_9() {
                let mut w = writer_with("spring summer fall winter");
                w.find_text = ("fall").into();
                w.replace_text = ("autumn").into();
                w.replace_all();
                // After replace_all, find_count should be 0 for the searched pattern
                w.update_find_count();
                // Verify no searched pattern remains (case-insensitive)
                let _lower = w.tabs[0].text.to_lowercase();
                let pat = ("fall").to_lowercase();
                if ("fall") != ("autumn") && !("autumn").to_lowercase().contains(&pat) {
                    assert_eq!(w.find_count, 0, "pattern should be gone after replace_all");
                }
            }

#[test]
fn t960_fv_10() {
                let mut w = writer_with("rock paper scissors");
                w.find_text = ("paper").into();
                w.replace_text = ("card").into();
                w.replace_all();
                // After replace_all, find_count should be 0 for the searched pattern
                w.update_find_count();
                // Verify no searched pattern remains (case-insensitive)
                let _lower = w.tabs[0].text.to_lowercase();
                let pat = ("paper").to_lowercase();
                if ("paper") != ("card") && !("card").to_lowercase().contains(&pat) {
                    assert_eq!(w.find_count, 0, "pattern should be gone after replace_all");
                }
            }

#[test]
fn t961_fm_1() {
                let w = writer_with("short text");
                assert!(w.word_count() >= (2));
                assert!(w.char_count() > 0);
                assert!(w.line_count() >= 1);
            }

#[test]
fn t962_fm_2() {
                let w = writer_with("medium length text here");
                assert!(w.word_count() >= (4));
                assert!(w.char_count() > 0);
                assert!(w.line_count() >= 1);
            }

#[test]
fn t963_fm_3() {
                let w = writer_with("a b c d e f");
                assert!(w.word_count() >= (6));
                assert!(w.char_count() > 0);
                assert!(w.line_count() >= 1);
            }

#[test]
fn t964_fm_4() {
                let w = writer_with("한글\n영어\n혼합");
                assert!(w.word_count() >= (3));
                assert!(w.char_count() > 0);
                assert!(w.line_count() >= 1);
            }

#[test]
fn t965_fm_5() {
                let w = writer_with("Final test sentence");
                assert!(w.word_count() >= (3));
                assert!(w.char_count() > 0);
                assert!(w.line_count() >= 1);
            }

