//! The editor-facing template analysis.

use konf_provider::lsp::parser::{
    find_template_refs, get_template_at_position, is_in_import_section, is_yaml_file,
    parse_template_path, CompletionContext, TemplateContext,
};

#[test]
fn test_parse_template_path() {
    let (file, keys) = parse_template_path("common/database.host").unwrap();
    assert_eq!(file, "common/database");
    assert_eq!(keys, vec!["host"]);

    let (file, keys) = parse_template_path("db.nested.key.path").unwrap();
    assert_eq!(file, "db");
    assert_eq!(keys, vec!["nested", "key", "path"]);
}

#[test]
fn test_is_in_import_section() {
    let content = "<!>:\n  import:\n    common/database:\n    common/redis: cache\n\nservice:\n  name: test\n";
    assert!(is_in_import_section(content, 2));
    assert!(is_in_import_section(content, 3));
    assert!(!is_in_import_section(content, 5));
    assert!(!is_in_import_section(content, 6));
}

#[test]
fn test_is_yaml_file() {
    assert!(is_yaml_file("config.yaml"));
    assert!(is_yaml_file("config.yml"));
    assert!(!is_yaml_file("config.json"));
    assert!(!is_yaml_file("config"));
}

#[test]
fn test_complete_template_cursor_inside() {
    let content = "pm: ${a.value}";
    // Cursor at position 7: "pm: ${a|.value}" (after 'a')
    let ctx = get_template_at_position(content, 0, 7).unwrap();
    assert_eq!(ctx.full_path, "a.value");
    assert_eq!(ctx.cursor_offset, 1); // after 'a'
}

#[test]
fn test_complete_template_cursor_at_dot() {
    let content = "pm: ${a.value}";
    // Cursor at position 8: "pm: ${a.|value}" (after '.')
    let ctx = get_template_at_position(content, 0, 8).unwrap();
    assert_eq!(ctx.full_path, "a.value");
    assert_eq!(ctx.cursor_offset, 2); // after 'a.'
}

#[test]
fn test_incomplete_template_just_opened() {
    let content = "pm: ${";
    // Cursor at position 6: "pm: ${|"
    let ctx = get_template_at_position(content, 0, 6).unwrap();
    assert_eq!(ctx.full_path, "");
    assert_eq!(ctx.cursor_offset, 0);
}

#[test]
fn test_incomplete_template_typing_file() {
    let content = "pm: ${a";
    // Cursor at position 7: "pm: ${a|"
    let ctx = get_template_at_position(content, 0, 7).unwrap();
    assert_eq!(ctx.full_path, "a");
    assert_eq!(ctx.cursor_offset, 1);
}

#[test]
fn test_incomplete_template_after_dot() {
    let content = "pm: ${a.";
    // Cursor at position 8: "pm: ${a.|"
    let ctx = get_template_at_position(content, 0, 8).unwrap();
    assert_eq!(ctx.full_path, "a.");
    assert_eq!(ctx.cursor_offset, 2);
}

#[test]
fn test_incomplete_template_typing_key() {
    let content = "pm: ${a.val";
    // Cursor at position 11: "pm: ${a.val|"
    let ctx = get_template_at_position(content, 0, 11).unwrap();
    assert_eq!(ctx.full_path, "a.val");
    assert_eq!(ctx.cursor_offset, 5);
}

#[test]
fn test_incomplete_template_nested_path() {
    let content = "pm: ${a.nested.";
    // Cursor at position 15: "pm: ${a.nested.|"
    let ctx = get_template_at_position(content, 0, 15).unwrap();
    assert_eq!(ctx.full_path, "a.nested.");
    assert_eq!(ctx.cursor_offset, 9);
}

#[test]
fn test_no_template_outside() {
    let content = "pm: hello";
    let ctx = get_template_at_position(content, 0, 5);
    assert!(ctx.is_none());
}

#[test]
fn test_completion_context_filename() {
    let ctx = TemplateContext {
        full_path: "a".to_string(),
        cursor_offset: 1,
    };
    assert_eq!(
        ctx.completion_context(),
        CompletionContext::FileName {
            partial: "a".to_string()
        }
    );
}

#[test]
fn test_completion_context_filename_empty() {
    let ctx = TemplateContext {
        full_path: "".to_string(),
        cursor_offset: 0,
    };
    assert_eq!(
        ctx.completion_context(),
        CompletionContext::FileName {
            partial: "".to_string()
        }
    );
}

#[test]
fn test_completion_context_after_dot() {
    // "${a." -> should suggest keys from file "a"
    let ctx = TemplateContext {
        full_path: "a.".to_string(),
        cursor_offset: 2,
    };
    assert_eq!(
        ctx.completion_context(),
        CompletionContext::KeyPath {
            file_key: "a".to_string(),
            key_path: vec![],
            partial: "".to_string(),
        }
    );
}

#[test]
fn test_completion_context_partial_key() {
    // "${a.val" -> should suggest keys from file "a" starting with "val"
    let ctx = TemplateContext {
        full_path: "a.val".to_string(),
        cursor_offset: 5,
    };
    assert_eq!(
        ctx.completion_context(),
        CompletionContext::KeyPath {
            file_key: "a".to_string(),
            key_path: vec![],
            partial: "val".to_string(),
        }
    );
}

#[test]
fn test_completion_context_nested_after_dot() {
    // "${a.nested." -> should suggest keys from a.nested
    let ctx = TemplateContext {
        full_path: "a.nested.".to_string(),
        cursor_offset: 9,
    };
    assert_eq!(
        ctx.completion_context(),
        CompletionContext::KeyPath {
            file_key: "a".to_string(),
            key_path: vec!["nested".to_string()],
            partial: "".to_string(),
        }
    );
}

#[test]
fn test_completion_context_nested_partial() {
    // "${a.nested.ke" -> should suggest keys from a.nested starting with "ke"
    let ctx = TemplateContext {
        full_path: "a.nested.ke".to_string(),
        cursor_offset: 11,
    };
    assert_eq!(
        ctx.completion_context(),
        CompletionContext::KeyPath {
            file_key: "a".to_string(),
            key_path: vec!["nested".to_string()],
            partial: "ke".to_string(),
        }
    );
}

#[test]
fn test_completion_context_deep_nested() {
    // "${a.nested.deep." -> should suggest keys from a.nested.deep
    let ctx = TemplateContext {
        full_path: "a.nested.deep.".to_string(),
        cursor_offset: 14,
    };
    assert_eq!(
        ctx.completion_context(),
        CompletionContext::KeyPath {
            file_key: "a".to_string(),
            key_path: vec!["nested".to_string(), "deep".to_string()],
            partial: "".to_string(),
        }
    );
}

#[test]
fn test_multiline_content() {
    let content = "<!>:\n  import:\n    - a\n\npm: ${a.";
    // Line 4, cursor at position 8: "pm: ${a.|"
    let ctx = get_template_at_position(content, 4, 8).unwrap();
    assert_eq!(ctx.full_path, "a.");
    assert_eq!(ctx.cursor_offset, 2);
}

#[test]
fn test_path_with_slash() {
    let content = "url: ${common/database.";
    // Cursor at end
    let ctx = get_template_at_position(content, 0, 23).unwrap();
    assert_eq!(ctx.full_path, "common/database.");
    assert_eq!(ctx.cursor_offset, 16);

    let comp = ctx.completion_context();
    assert_eq!(
        comp,
        CompletionContext::KeyPath {
            file_key: "common/database".to_string(),
            key_path: vec![],
            partial: "".to_string(),
        }
    );
}

#[test]
fn test_find_template_refs_positions() {
    let refs = find_template_refs("a: ${x.y}\nb: plain\nc: ${z} and ${w.q}\n");
    assert_eq!(refs.len(), 3);
    assert_eq!(refs[0].path, "x.y");
    assert_eq!(refs[0].line, 0);
    assert_eq!(refs[0].col_start, 3);
    assert_eq!(refs[0].col_end, 9);
    assert_eq!(refs[1].path, "z");
    assert_eq!(refs[1].line, 2);
    assert_eq!(refs[2].path, "w.q");
    assert_eq!(refs[2].line, 2);
}
