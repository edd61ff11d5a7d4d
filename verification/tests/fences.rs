//! Tests for the fence-stripping rule used by the code-block copy button.

use markdown::text::without_fences;

fn wf(s: &str) -> String {
    let out = without_fences(&s.as_bytes().to_vec());
    String::from_utf8(out).unwrap()
}

#[test]
fn test_without_fences() {
    let input = "```rust\nlet x = 5;\n```";
    assert_eq!(wf(input), "let x = 5;\n");

    let input = "   ```\nno language\n```   ";
    assert_eq!(wf(input), "no language\n");

    let input = "plain text";
    assert_eq!(wf(input), "plain text");

    let input = "```python\nprint('hello')\nprint('world')\n```";
    assert_eq!(wf(input), "print('hello')\nprint('world')\n");
}

#[test]
fn without_fences_on_empty_input() {
    assert_eq!(wf(""), "");
}

#[test]
fn without_fences_on_bare_fence() {
    assert_eq!(wf("```"), "");
}

#[test]
fn without_fences_without_closing_fence() {
    assert_eq!(wf("```rust\nlet y = 1;"), "let y = 1;");
}

#[test]
fn trim_ascii_strips_both_ends() {
    let out = markdown::text::trim_ascii(&"  \n\tcode here \n".as_bytes().to_vec());
    assert_eq!(String::from_utf8(out).unwrap(), "code here");
    let out = markdown::text::trim_ascii(&" \t\n ".as_bytes().to_vec());
    assert_eq!(out.len(), 0);
}
