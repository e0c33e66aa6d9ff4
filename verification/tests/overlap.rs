use gomamayo::{find_overlap, into_moras};

fn overlap(left: &str, right: &str) -> usize {
    find_overlap(&into_moras(left), &into_moras(right))
}

fn moras(items: &[&str]) -> Vec<String> {
    items.iter().map(|s| s.to_string()).collect()
}

#[test]
fn shared_mora_is_found() {
    assert_eq!(overlap("ゴマ", "マヨ"), 1);
}

#[test]
fn longest_overlap_wins() {
    assert_eq!(overlap("ハクレー", "レーム"), 2);
    assert_eq!(overlap("アアア", "アアア"), 3);
    assert_eq!(overlap("アア", "アアア"), 2);
    assert_eq!(overlap("アアア", "アア"), 2);
}

#[test]
fn no_overlap_is_zero() {
    assert_eq!(overlap("シンリョー", "ウケツケ"), 0);
}

#[test]
fn empty_side_gives_zero() {
    assert_eq!(overlap("", "マヨ"), 0);
    assert_eq!(overlap("ゴマ", ""), 0);
    assert_eq!(overlap("", ""), 0);
    assert_eq!(find_overlap(&Vec::new(), &Vec::new()), 0);
}

#[test]
fn morae_are_compared_whole() {
    assert_eq!(overlap("オレンジ", "ジュース"), 0);
    assert_eq!(overlap("オレンジュ", "ジュース"), 1);
    assert_eq!(overlap("キジュ", "ジース"), 0);
}

#[test]
fn overlap_is_at_most_the_shorter_length() {
    for (left, right) in [("ア", "アアアア"), ("アアアア", "ア"), ("マ", "マ"), ("コー", "コーコー")] {
        let l = into_moras(left);
        let r = into_moras(right);
        let d = find_overlap(&l, &r);
        assert!(d <= l.len().min(r.len()));
        assert_eq!(l[l.len() - d..], r[..d]);
        for longer in d + 1..=l.len().min(r.len()) {
            assert_ne!(l[l.len() - longer..], r[..longer]);
        }
    }
}

#[test]
fn whole_sequence_may_overlap() {
    assert_eq!(overlap("コーボ", "コーボ"), 3);
    assert_eq!(overlap("ボ", "ボシュー"), 1);
}

#[test]
fn overlap_of_given_morae() {
    let left = moras(&["タ", "コ", "ー"]);
    let right = moras(&["コ", "ー", "ジ"]);
    assert_eq!(find_overlap(&left, &right), 2);
    assert_eq!(find_overlap(&right, &left), 0);
}

#[test]
fn inner_match_does_not_count() {
    let left = moras(&["ア", "イ", "ウ"]);
    let right = moras(&["イ", "エ"]);
    assert_eq!(find_overlap(&left, &right), 0);
}
