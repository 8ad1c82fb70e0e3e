use bpaf::monoid::FreeMonoid;

#[test]
fn typical_usage() {
    let mut m = FreeMonoid::<char>::default();
    m.push_str('a', "string ")
        .push_str('b', "more string")
        .push('d', '!');

    let mut r = String::new();
    let mut it = m.iter();
    while let Some((a, slice)) = it.next() {
        r += &format!("{}: {:?}; ", a, slice);
    }
    assert_eq!("a: \"string \"; b: \"more string\"; d: \"!\"; ", r);
}

#[test]
fn squash_merges_equal_neighbours() {
    let mut m = FreeMonoid::<char>::default();
    m.squash = true;
    m.push_str('a', "x").push_str('a', "y").push('b', 'z');
    assert_eq!(m.len(), 2);
    assert_eq!(m.get(0), Some(('a', "xy".to_string())));
    assert_eq!(m.get(1), Some(('b', "z".to_string())));
    assert_eq!(m.payload_size(), 3);
}

#[test]
fn concatenation_keeps_fragment_boundaries() {
    let mut a = FreeMonoid::<char>::default();
    a.push_str('a', "ab");
    let mut b = FreeMonoid::<char>::default();
    b.push_str('b', "cd").push_str('c', "e");
    let c = a.add(&b);
    assert_eq!(c.len(), 3);
    assert_eq!(c.get(0), Some(('a', "ab".to_string())));
    assert_eq!(c.get(1), Some(('b', "cd".to_string())));
    assert_eq!(c.get(2), Some(('c', "e".to_string())));
    assert_eq!(c.get(3), None);
}

#[test]
fn empty_monoid_is_identity() {
    let mut a = FreeMonoid::<char>::default();
    a.push_str('a', "ab");
    let e = FreeMonoid::<char>::default();
    let left = FreeMonoid::<char>::default().add(&a);
    let right = a.add(&e);
    assert_eq!(left.len(), 1);
    assert_eq!(right.len(), 1);
    assert_eq!(left.get(0), right.get(0));
}

#[test]
fn payload_size_counts_bytes() {
    let mut m = FreeMonoid::<char>::default();
    m.push_str('a', "é").push('b', '€');
    assert_eq!(m.payload_size(), 5);
}

#[test]
fn appended_size_is_the_sum() {
    let mut a = FreeMonoid::<char>::default();
    a.push_str('a', "é");
    let mut b = FreeMonoid::<char>::default();
    b.push_str('b', "x€");
    let (sa, sb) = (a.payload_size(), b.payload_size());
    a.add_assign(&b);
    assert_eq!(a.payload_size(), sa + sb);
    assert_eq!(a.payload_size(), 6);
}
