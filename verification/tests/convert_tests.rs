use laspad::md2bb::convert;

#[test]
fn md_to_bb_test() {
    assert_eq!(
        convert(
            "\
[my url](google.com)
```
a
```
``a``
`a`
###test
##hello
#goodbye
**test**
*hi*
~~strike~~
"
        ),
        "\
[url=google.com]my url[/url]
[code]
a
[/code]
[code]a[/code]
[code]a[/code]
[b]#test[/b]
[b]hello[/b]
[h1]goodbye[/h1]
[b]test[/b]
[i]hi[/i]
[strike]strike[/strike]
"
    );
}

#[test]
fn convert_plain_text_unchanged() {
    assert_eq!(convert("nothing special here"), "nothing special here");
}

#[test]
fn convert_link_same_line_only() {
    assert_eq!(convert("[a]\n(b)"), "[a]\n(b)");
    assert_eq!(convert("[a](b)"), "[url=b]a[/url]");
}

#[test]
fn convert_bold_before_italic() {
    assert_eq!(convert("**x** *y*"), "[b]x[/b] [i]y[/i]");
}

#[test]
fn convert_code_fence_spans_lines() {
    assert_eq!(convert("``x\ny``"), "[code]x\ny[/code]");
    assert_eq!(convert("`x\ny`"), "`x\ny`");
}

#[test]
fn convert_heading_needs_anchor() {
    assert_eq!(convert("a #b"), "a #b");
    assert_eq!(convert("#b"), "[h1]b[/h1]");
    assert_eq!(convert("a\n#b"), "a\n[h1]b[/h1]");
}
