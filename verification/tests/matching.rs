use celld::domain::mapping::{
    HeaderMapping, MappingSource, SourceColumn, CONTENT_THRESHOLD, EMBEDDING_THRESHOLD,
    EXACT_SCORE, TOKEN_SUBSTRING_SCORE, ZERO_SCORE,
};
use celld::domain::template::{TemplateColumn, TemplateSchema};
use celld::mapping::alias::AliasDictionary;
use celld::mapping::history::{HistoryHit, MemoryHistory};
use celld::mapping::inference::content_candidates;
use celld::mapping::matcher::{
    assign_header_matches, embedding_texts, mapping_conflict_message, top_k_candidates,
    HeaderMatcher,
};
use celld::mapping::normalizer::normalize_header;

/// Score key of an f32 score, as the application makes it.
fn key(score: f32) -> u32 {
    let bits = score.to_bits();
    if bits & 0x8000_0000 == 0 {
        bits | 0x8000_0000
    } else {
        !bits
    }
}

fn template_from_names(names: &[&str]) -> TemplateSchema {
    TemplateSchema {
        id: "t".into(),
        file_name: "t.xlsx".into(),
        file_path: "t.xlsx".into(),
        sheet_name: "Sheet1".into(),
        header_start_row: 1,
        header_end_row: 1,
        data_start_row: 2,
        columns: names
            .iter()
            .enumerate()
            .map(|(i, name)| TemplateColumn {
                index: i,
                name: (*name).into(),
                normalized_name: normalize_header(name),
                path: None,
            })
            .collect(),
    }
}

fn template() -> TemplateSchema {
    template_from_names(&["姓名", "身份证号", "手机号码", "所属部门"])
}

fn sources_with_samples(rows: &[(&str, &[&str])]) -> Vec<SourceColumn> {
    rows.iter()
        .enumerate()
        .map(|(i, (header, samples))| SourceColumn {
            index: i,
            header: (*header).into(),
            normalized_header: normalize_header(header),
            sample_values: samples.iter().map(|s| (*s).to_string()).collect(),
        })
        .collect()
}

fn sources(headers: &[&str]) -> Vec<SourceColumn> {
    let rows: Vec<(&str, &[&str])> = headers.iter().map(|h| (*h, &[][..])).collect();
    sources_with_samples(&rows)
}

/// Runs every stage, with the given score for every embedding comparison.
fn run(
    template: &TemplateSchema,
    sources: &Vec<SourceColumn>,
    alias: &AliasDictionary,
    history: &MemoryHistory,
    similarity: f32,
) -> Vec<HeaderMapping> {
    let matcher = HeaderMatcher { template, history, alias };
    let hits = matcher.history_hits(sources);
    let (mut mappings, pending) = matcher.match_by_header(sources, &hits);
    let texts = embedding_texts(sources, &pending);
    assert_eq!(texts.len(), pending.len());
    let header_scores: Vec<Vec<u32>> =
        pending.iter().map(|_| vec![key(similarity); template.columns.len()]).collect();
    matcher.apply_embedding_scores(&mut mappings, &pending, &header_scores);
    assign_header_matches(&mut mappings);
    if let Some(plan) = matcher.plan_content(sources, &mappings) {
        let content_scores: Vec<Vec<u32>> = plan
            .jobs
            .iter()
            .map(|_| vec![key(similarity); template.columns.len()])
            .collect();
        matcher.apply_content_scores(sources, &mut mappings, &content_scores);
    }
    mappings
}

#[test]
fn exact_and_normalized_and_alias_match() {
    let template = template();
    let mappings = run(
        &template,
        &sources(&["姓名", "手机号码（必填）", "联系电话"]),
        &AliasDictionary::builtin(),
        &MemoryHistory::default(),
        0.0,
    );
    assert_eq!(mappings[0].source, MappingSource::Exact);
    assert_eq!(mappings[0].target_header.as_deref(), Some("姓名"));
    assert_eq!(mappings[1].source, MappingSource::NormalizedExact);
    assert_eq!(mappings[1].target_header.as_deref(), Some("手机号码"));
    assert_eq!(mappings[2].source, MappingSource::Unmatched);
}

#[test]
fn history_match_uses_previous_confirmation() {
    let template = template();
    let history = MemoryHistory {
        hits: vec![(
            normalize_header("组织机构"),
            HistoryHit {
                target_header: "所属部门".into(),
                normalized_target_header: normalize_header("所属部门"),
                usage_count: 3,
            },
        )],
    };
    let mappings =
        run(&template, &sources(&["组织机构"]), &AliasDictionary::builtin(), &history, 0.0);
    assert_eq!(mappings[0].source, MappingSource::History);
    assert_eq!(mappings[0].target_header.as_deref(), Some("所属部门"));
}

#[test]
fn alias_match_phone_fields() {
    let template = template();
    let mappings = run(
        &template,
        &sources(&["联系电话"]),
        &AliasDictionary::builtin(),
        &MemoryHistory::default(),
        0.0,
    );
    assert_eq!(mappings[0].source, MappingSource::Alias);
    assert_eq!(mappings[0].target_header.as_deref(), Some("手机号码"));
}

#[test]
fn reports_mapping_conflict() {
    let mappings = vec![
        HeaderMapping {
            source_column_index: 0,
            source_header: "联系电话".into(),
            normalized_source_header: "联系电话".into(),
            target_column_index: Some(2),
            target_header: Some("手机号码".into()),
            score: Some(EXACT_SCORE),
            source: MappingSource::Alias,
            candidates: vec![],
        },
        HeaderMapping {
            source_column_index: 1,
            source_header: "手机".into(),
            normalized_source_header: "手机".into(),
            target_column_index: None,
            target_header: None,
            score: None,
            source: MappingSource::Unmatched,
            candidates: vec![],
        },
    ];
    let msg = mapping_conflict_message(&mappings, 1, 2, "手机号码").unwrap();
    assert!(msg.contains("手机号码"));
    assert!(msg.contains("联系电话"));
    assert_eq!(msg, "“手机号码”已映射给“联系电话”");
    assert!(mapping_conflict_message(&mappings, 0, 2, "手机号码").is_none());
    assert!(mapping_conflict_message(&mappings, 1, 3, "x").is_none());
}

#[test]
fn content_does_not_override_exact_header_match() {
    let template = template_from_names(&["日期", "邮箱"]);
    let sources = sources_with_samples(&[("邮箱", &["2024-01-02"])]);
    let mappings =
        run(&template, &sources, &AliasDictionary::default(), &MemoryHistory::default(), 0.0);
    assert_eq!(mappings[0].source, MappingSource::Exact);
    assert_eq!(mappings[0].target_header.as_deref(), Some("邮箱"));
}

#[test]
fn content_infers_email_and_date_from_first_row() {
    let template = template_from_names(&["邮箱", "日期", "姓名"]);
    let sources = sources_with_samples(&[("A", &["a@b.com"]), ("B", &["2024-01-02"])]);
    let mappings =
        run(&template, &sources, &AliasDictionary::default(), &MemoryHistory::default(), 0.0);
    assert_eq!(mappings[0].source, MappingSource::Content);
    assert_eq!(mappings[0].target_header.as_deref(), Some("邮箱"));
    assert_eq!(mappings[0].score, Some(TOKEN_SUBSTRING_SCORE));
    assert_eq!(mappings[1].source, MappingSource::Content);
    assert_eq!(mappings[1].target_header.as_deref(), Some("日期"));
}

#[test]
fn content_uses_first_non_empty_sample() {
    let template = template_from_names(&["邮箱", "姓名"]);
    let sources = sources_with_samples(&[("col1", &["", "  ", "a@b.com"])]);
    let mappings =
        run(&template, &sources, &AliasDictionary::default(), &MemoryHistory::default(), 0.0);
    assert_eq!(mappings[0].source, MappingSource::Content);
    assert_eq!(mappings[0].target_header.as_deref(), Some("邮箱"));
}

#[test]
fn content_does_not_steal_taken_template_column() {
    let template = template_from_names(&["邮箱", "姓名"]);
    let sources = sources_with_samples(&[("邮箱", &["ignored"]), ("A", &["a@b.com"])]);
    let mappings =
        run(&template, &sources, &AliasDictionary::default(), &MemoryHistory::default(), 0.0);
    assert_eq!(mappings[0].source, MappingSource::Exact);
    assert_eq!(mappings[0].target_header.as_deref(), Some("邮箱"));
    assert_eq!(mappings[1].source, MappingSource::Unmatched);
    assert!(mappings[1].target_header.is_none());
}

#[test]
fn content_ignores_unrelated_numbers() {
    let template = template_from_names(&["姓名", "邮箱"]);
    let sources = sources_with_samples(&[("col1", &["42"])]);
    let mappings =
        run(&template, &sources, &AliasDictionary::default(), &MemoryHistory::default(), 0.0);
    assert_eq!(mappings[0].source, MappingSource::Unmatched);
    assert!(mappings[0].target_header.is_none());
}

#[test]
fn embedding_header_match_is_not_overridden_by_content() {
    let template = template_from_names(&["学号", "邮箱"]);
    let sources = sources_with_samples(&[("学生编号", &["a@b.com"])]);
    let mappings =
        run(&template, &sources, &AliasDictionary::default(), &MemoryHistory::default(), 0.6);
    assert_eq!(mappings[0].source, MappingSource::Embedding);
    assert_eq!(mappings[0].target_header.as_deref(), Some("学号"));
    assert_eq!(mappings[0].score, Some(key(0.6)));
}

#[test]
fn embedding_match_below_threshold_is_dropped() {
    let template = template_from_names(&["学号", "姓名"]);
    let mappings = run(
        &template,
        &sources(&["学生编号"]),
        &AliasDictionary::default(),
        &MemoryHistory::default(),
        0.5,
    );
    assert_eq!(mappings[0].source, MappingSource::Unmatched);
    assert!(mappings[0].target_column_index.is_none());
}

#[test]
fn score_keys_order_as_the_scores_do() {
    assert_eq!(key(1.0), EXACT_SCORE);
    assert_eq!(key(0.52), EMBEDDING_THRESHOLD);
    assert_eq!(key(0.55), CONTENT_THRESHOLD);
    assert_eq!(key(0.93), TOKEN_SUBSTRING_SCORE);
    assert_eq!(key(0.0), ZERO_SCORE);
    assert!(key(-0.5) < key(0.0));
    assert!(key(0.3) < key(0.31));
    assert!(key(-0.9) < key(-0.1));
}

#[test]
fn top_k_keeps_three_best_in_stable_order() {
    let template = template_from_names(&["a", "b", "c", "d", "e"]);
    let scores = [key(0.2), key(0.9), key(0.5), key(0.9), key(0.1)];
    let top = top_k_candidates(&template, &scores);
    let order: Vec<usize> = top.iter().map(|c| c.template_column_index).collect();
    assert_eq!(order, vec![1, 3, 2]);
    assert_eq!(top[0].template_header, "b");
    assert_eq!(top[2].score, key(0.5));
    let short = top_k_candidates(&template, &scores[..2]);
    let order: Vec<usize> = short.iter().map(|c| c.template_column_index).collect();
    assert_eq!(order, vec![1, 0]);
}

#[test]
fn content_candidates_skip_taken_columns_and_raise_token_matches() {
    let template = template_from_names(&["邮箱", "电子邮件地址", "姓名"]);
    let free = vec![1, 2];
    let keys = [key(0.99), key(0.3), key(0.4)];
    let cands =
        content_candidates(&template, &free, &keys, Some(celld::mapping::content::ContentKind::Email));
    let order: Vec<usize> = cands.iter().map(|c| c.template_column_index).collect();
    assert_eq!(order, vec![1, 2]);
    assert_eq!(cands[0].score, TOKEN_SUBSTRING_SCORE);
    assert_eq!(cands[1].score, key(0.4));
}

#[test]
fn embedding_texts_follow_pending_columns() {
    let srcs = sources(&["姓名", "联系电话"]);
    let texts = embedding_texts(&srcs, &vec![1, 7, 0]);
    assert_eq!(texts, vec!["联系电话".to_string(), "姓名".to_string()]);
}

#[test]
fn every_template_column_goes_to_one_source_at_most() {
    let template = template();
    for similarity in [0.0f32, 0.9] {
        let mappings = run(
            &template,
            &sources_with_samples(&[
                ("手机号码", &["13812345678"]),
                ("联系电话", &["13912345678"]),
                ("手机", &[]),
                ("姓名", &["张三"]),
                ("姓名", &["李四"]),
                ("备注", &["a@b.com"]),
            ]),
            &AliasDictionary::builtin(),
            &MemoryHistory::default(),
            similarity,
        );
        let targets: Vec<usize> = mappings.iter().filter_map(|m| m.target_column_index).collect();
        for (i, a) in targets.iter().enumerate() {
            assert!(!targets[i + 1..].contains(a), "column {a} assigned twice: {targets:?}");
        }
        assert_eq!(mappings[0].target_column_index, Some(2));
        assert_eq!(mappings[3].target_column_index, Some(0));
    }
}

#[test]
fn history_hit_naming_no_template_column_falls_through_to_alias() {
    let template = template();
    let history = MemoryHistory {
        hits: vec![(
            normalize_header("联系电话"),
            HistoryHit {
                target_header: "旧字段".into(),
                normalized_target_header: "旧字段".into(),
                usage_count: 1,
            },
        )],
    };
    let mappings =
        run(&template, &sources(&["联系电话"]), &AliasDictionary::builtin(), &history, 0.0);
    assert_eq!(mappings[0].source, MappingSource::Alias);
    assert_eq!(mappings[0].target_header.as_deref(), Some("手机号码"));
}
