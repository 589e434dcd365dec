use celld::mapping::alias::AliasDictionary;
use celld::mapping::content::{
    detect_kind, looks_like_date, looks_like_email, looks_like_phone, token_in_header, ContentKind,
};
use celld::mapping::greedy::{Assignment, AssignmentStrategy};
use celld::mapping::history::{HistoryHit, HistoryLookup, MemoryHistory};
use celld::mapping::normalizer::normalize_header;

#[test]
fn trims_and_strips_required_markers() {
    assert_eq!(normalize_header(" 手机号码 "), "手机号码");
    assert_eq!(normalize_header("手机号码（必填）"), "手机号码");
    assert_eq!(normalize_header("手机号*"), "手机号");
    assert_eq!(normalize_header("联系电话："), "联系电话");
    assert_eq!(normalize_header("Name"), "name");
}

#[test]
fn does_not_strip_meaningful_parentheses() {
    assert_eq!(normalize_header("手机号码（公司）"), "手机号码（公司）");
}

#[test]
fn maps_common_phone_aliases() {
    let dict = AliasDictionary::builtin();
    assert_eq!(dict.canonical_for("联系电话"), Some("手机号码"));
    assert_eq!(dict.canonical_for("手机号"), Some("手机号码"));
    assert_eq!(dict.canonical_for("证件号码"), Some("身份证号"));
    assert_eq!(dict.canonical_for("用户姓名"), Some("姓名"));
}

#[test]
fn detects_generic_email_date_and_phone() {
    assert_eq!(detect_kind("a@b.com"), Some(ContentKind::Email));
    assert_eq!(detect_kind("2024-01-02"), Some(ContentKind::Date));
    assert_eq!(detect_kind("2024/1/2"), Some(ContentKind::Date));
    assert_eq!(detect_kind("13812345678"), Some(ContentKind::Phone));
    assert_eq!(detect_kind("20230101001"), Some(ContentKind::LongId));
    assert_eq!(detect_kind("42"), None);
    assert_eq!(detect_kind("张三"), None);
}

#[test]
fn email_and_date_checks_reject_noise() {
    assert!(!looks_like_email("not-an-email"));
    assert!(!looks_like_email("a@b"));
    assert!(!looks_like_date("2024-13-40"));
    assert!(!looks_like_date("01-02-2024"));
    assert!(!looks_like_phone("12345"));
    assert!(!looks_like_phone("20230101001"));
}

#[test]
fn email_tokens_prefer_email_header_over_name() {
    assert!(token_in_header("邮箱", "邮箱"));
    assert!(token_in_header("email", "email"));
    assert!(token_in_header("日期", "出生日期"));
    assert!(!token_in_header("邮箱", "日期"));
    assert!(!token_in_header("id", "valid"));
}

#[test]
fn prefers_highest_usage_count() {
    let history = MemoryHistory {
        hits: vec![
            (
                "组织机构".into(),
                HistoryHit {
                    target_header: "单位名称".into(),
                    normalized_target_header: "单位名称".into(),
                    usage_count: 1,
                },
            ),
            (
                "组织机构".into(),
                HistoryHit {
                    target_header: "所属单位".into(),
                    normalized_target_header: "所属单位".into(),
                    usage_count: 5,
                },
            ),
        ],
    };
    let hit = history.find("组织机构").unwrap();
    assert_eq!(hit.target_header, "所属单位");
}

#[test]
fn greedy_avoids_duplicate_targets() {
    // Scores are order keys of the f32 scores 0.91, 0.88 and 0.70.
    let key = |f: f32| f.to_bits() | 0x8000_0000;
    let chosen = AssignmentStrategy::greedy(&[
        Assignment { source_column_index: 0, target_column_index: 1, score: key(0.91) },
        Assignment { source_column_index: 1, target_column_index: 1, score: key(0.88) },
        Assignment { source_column_index: 1, target_column_index: 2, score: key(0.70) },
    ]);
    assert_eq!(chosen.len(), 2);
    assert!(chosen.iter().any(|a| a.source_column_index == 0 && a.target_column_index == 1));
    assert!(chosen.iter().any(|a| a.source_column_index == 1 && a.target_column_index == 2));
}

#[test]
fn notes_joined_by_removing_another_note_are_removed_too() {
    assert_eq!(normalize_header("（(必填)必填）"), "");
    assert_eq!(normalize_header("部门（必填项）"), "部门");
    assert_eq!(normalize_header("备注必填"), "备注");
    assert_eq!(normalize_header("必填"), "必填");
    assert_eq!(normalize_header("a\t\tb   c"), "a b c");
}
