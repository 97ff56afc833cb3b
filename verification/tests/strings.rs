use avm_object_core::wstr::{BorrowWStr, StrOrd, Units, WStr, WString};

fn narrow(bytes: &[u8]) -> WString {
    WString::from_bytes(bytes.to_vec())
}

fn wide(units: &[u16]) -> WString {
    WString::from_wide(units.to_vec())
}

#[test]
fn narrow_stays_narrow_for_small_units() {
    let mut s = WString::new();
    assert!(!s.is_wide());
    for u in [0x41u16, 0x42, 0xFF, 0x00] {
        s.push(u);
        assert!(!s.is_wide());
    }
    assert_eq!(s.len(), 4);
    assert_eq!(s.get(0), 0x41);
    assert_eq!(s.get(2), 0xFF);
}

#[test]
fn promotion_to_wide_preserves_content() {
    let mut s = narrow(b"AB");
    assert!(!s.is_wide());
    s.push(0x1234);
    assert!(s.is_wide());
    assert_eq!(s.len(), 3);
    assert_eq!(s.get(0), 0x41);
    assert_eq!(s.get(1), 0x42);
    assert_eq!(s.get(2), 0x1234);
    s.push(0x43);
    assert!(s.is_wide(), "a wide buffer is never demoted");
    assert_eq!(s.get(3), 0x43);
}

#[test]
fn eq_ignore_case_legacy_fold() {
    let a = narrow(b"ABC");
    let b = narrow(b"abc");
    assert!(a.eq_ignore_case(&b));
    assert!(!a.eq_units(&b), "plain equality of the same pair is false");
    assert!(a != b);
}

#[test]
fn width_independent_equality_and_hash() {
    let a = narrow(&[65, 66, 67]);
    let b = wide(&[65, 66, 67]);
    assert!(!a.is_wide());
    assert!(b.is_wide());
    assert!(a.eq_units(&b));
    assert!(a == b);
    assert_eq!(a.hash_code(), b.hash_code());
}

#[test]
fn cmp_orders_by_code_units() {
    assert_eq!(narrow(b"abc").cmp_units(&narrow(b"abd")), StrOrd::Less);
    assert_eq!(narrow(b"abc").cmp_units(&narrow(b"abc")), StrOrd::Equal);
    assert_eq!(narrow(b"abd").cmp_units(&wide(&[97, 98, 99])), StrOrd::Greater);
    assert_eq!(narrow(b"ab").cmp_units(&narrow(b"abc")), StrOrd::Less);
    assert_eq!(narrow(b"ABC").cmp_ignore_case(&narrow(b"abc")), StrOrd::Equal);
    assert_eq!(narrow(b"ABD").cmp_ignore_case(&narrow(b"abc")), StrOrd::Greater);
}

#[test]
fn find_and_rfind() {
    let hay = narrow(b"abcabc");
    assert_eq!(hay.find(&narrow(b"bc")), Some(1));
    assert_eq!(hay.rfind(&narrow(b"bc")), Some(4));
    assert_eq!(hay.find(&narrow(b"zz")), None);
    assert_eq!(hay.find(&narrow(b"")), Some(0));
    assert_eq!(hay.rfind(&narrow(b"")), Some(6));
    assert_eq!(hay.find(&wide(&[99, 97])), Some(2));
}

#[test]
fn slicing_and_unit_access() {
    let s = narrow(b"hello");
    let sub = s.slice(1, 4);
    let WStr { units } = sub;
    match units {
        Units::Bytes(b) => assert_eq!(b, b"ell"),
        Units::Wide(_) => panic!("narrow slice expected"),
    }
    assert_eq!(s.try_get(4), Some(0x6F));
    assert_eq!(s.try_get(5), None);
    assert!(s.try_slice(3, 2).is_none());
    assert!(s.try_slice(0, 6).is_none());
}

#[test]
fn units_len_matches_width() {
    let s = narrow(b"xyz");
    assert_eq!(s.units.len(), 3);
    let w = wide(&[1, 2]);
    assert_eq!(w.units.len(), 2);
}

#[test]
fn borrow_exposes_units() {
    let s = narrow(b"ok");
    let b = s.borrow();
    match b.units {
        Units::Bytes(x) => assert_eq!(x, b"ok"),
        Units::Wide(_) => panic!(),
    }
}

#[test]
fn split_by_separator() {
    fn views(v: Vec<WString>) -> Vec<Vec<u16>> {
        v.iter().map(|w| (0..w.len()).map(|i| w.get(i)).collect()).collect()
    }
    let hay = narrow(b"a,bb,,c");
    let sep = narrow(b",");
    assert_eq!(
        views(hay.split(&sep)),
        vec![b"a".to_vec(), b"bb".to_vec(), b"".to_vec(), b"c".to_vec()]
            .into_iter()
            .map(|b| b.into_iter().map(|x| x as u16).collect::<Vec<u16>>())
            .collect::<Vec<Vec<u16>>>()
    );
    assert_eq!(views(narrow(b"abc").split(&narrow(b"x"))).len(), 1);
    assert_eq!(views(narrow(b"").split(&narrow(b","))).len(), 1);
    assert_eq!(views(narrow(b",").split(&narrow(b","))).len(), 2);
}

#[test]
fn split_walk_is_restartable() {
    let hay = narrow(b"x;y");
    let sep = narrow(b";");
    let mut it = hay.split_iter(&sep);
    let first = it.next().unwrap();
    assert!(first.eq_units(&narrow(b"x")));
    let second = it.next().unwrap();
    assert!(second.eq_units(&narrow(b"y")));
    assert!(it.next().is_none());
    it.restart();
    assert!(it.next().unwrap().eq_units(&narrow(b"x")));
}

#[test]
fn set_unit_overwrites_in_place_and_promotes() {
    let mut s = narrow(b"abc");
    s.set_unit(1, 0x42);
    assert!(!s.is_wide());
    assert_eq!(s.get(1), 0x42);
    s.set_unit(2, 0x1234);
    assert!(s.is_wide(), "a unit above 0xFF promotes the buffer");
    assert_eq!(s.get(0), 0x61);
    assert_eq!(s.get(1), 0x42);
    assert_eq!(s.get(2), 0x1234);
    s.set_unit(0, 0x7A);
    assert!(s.is_wide(), "a wide buffer is never demoted");
    assert_eq!(s.get(0), 0x7A);
}
