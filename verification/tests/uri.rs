use regex::Regex;
use s3_object_storage::uri::parse_s3_uri;

fn parsed(bucket: &str, prefix: &str) -> Option<(String, String)> {
    Some((bucket.to_string(), prefix.to_string()))
}

#[test]
fn test_parse_uri() {
    assert_eq!(
        parse_s3_uri("s3://bucket/path/to/object"),
        parsed("bucket", "path/to/object")
    );
    assert_eq!(parse_s3_uri("s3://bucket/path"), parsed("bucket", "path"));
    assert_eq!(
        parse_s3_uri("s3://bucket/path/to/object"),
        parsed("bucket", "path/to/object")
    );
    assert_eq!(parse_s3_uri("s3://bucket/"), parsed("bucket", ""));
    assert_eq!(parse_s3_uri("s3://bucket"), parsed("bucket", ""));
    assert_eq!(parse_s3_uri("ram://path/to/file"), None);
}

#[test]
fn test_parse_uri_with_protocol() {
    assert_eq!(
        parse_s3_uri("s3+https://bucket/indexes"),
        parsed("bucket", "indexes")
    );
    assert_eq!(parse_s3_uri("s3+localstack://bucket"), parsed("bucket", ""));
    assert_eq!(parse_s3_uri("s3+://bucket/indexes"), None);
    assert_eq!(parse_s3_uri("s3+a:b://bucket/indexes"), None);
}

#[test]
fn test_parse_uri_without_bucket() {
    assert_eq!(parse_s3_uri(""), None);
    assert_eq!(parse_s3_uri("s3"), None);
    assert_eq!(parse_s3_uri("s3://"), None);
    assert_eq!(parse_s3_uri("s3:///path"), None);
    assert_eq!(parse_s3_uri("s3:/bucket/path"), None);
    assert_eq!(parse_s3_uri("S3://bucket/path"), None);
}

#[test]
fn test_parse_uri_takes_the_first_address() {
    assert_eq!(
        parse_s3_uri("see s3://bucket/indexes"),
        parsed("bucket", "indexes")
    );
    assert_eq!(
        parse_s3_uri("s3:///s3://bucket/indexes"),
        parsed("bucket", "indexes")
    );
    assert_eq!(
        parse_s3_uri("s3://first/of/s3://second/two"),
        parsed("first", "of/s3://second/two")
    );
}

#[test]
fn test_parse_uri_prefix_ends_with_the_line() {
    assert_eq!(
        parse_s3_uri("s3://bucket/indexes\nmore"),
        parsed("bucket", "indexes")
    );
    assert_eq!(parse_s3_uri("s3://bucket/\nmore"), parsed("bucket", ""));
    assert_eq!(
        parse_s3_uri("s3://buc\nket/indexes"),
        parsed("buc\nket", "indexes")
    );
}

#[test]
fn test_parse_uri_keeps_wide_characters() {
    assert_eq!(
        parse_s3_uri("s3://b\u{fc}cket/\u{4e2d}\u{6587}/\u{1f600}"),
        parsed("b\u{fc}cket", "\u{4e2d}\u{6587}/\u{1f600}")
    );
}

fn by_pattern(pattern: &Regex, text: &str) -> Option<(String, String)> {
    pattern.captures(text).and_then(|captures| {
        captures.name("bucket").map(|bucket| {
            (
                bucket.as_str().to_string(),
                captures
                    .name("path")
                    .map_or_else(String::new, |path| path.as_str().to_string()),
            )
        })
    })
}

fn check_all(pattern: &Regex, text: &mut String, alphabet: &[char], depth: usize) {
    assert_eq!(parse_s3_uri(text), by_pattern(pattern, text), "{:?}", text);
    if depth == 0 {
        return;
    }
    for &letter in alphabet {
        text.push(letter);
        check_all(pattern, text, alphabet, depth - 1);
        text.pop();
    }
}

#[test]
fn test_parse_uri_agrees_with_the_pattern() {
    let pattern = Regex::new(r"s3(\+[^:]+)?://(?P<bucket>[^/]+)(/(?P<path>.+))?").unwrap();
    let alphabet = ['s', '3', '+', ':', '/', 'b', '\n'];
    check_all(&pattern, &mut String::new(), &alphabet, 5);
    check_all(&pattern, &mut "s3".to_string(), &alphabet, 5);
    check_all(&pattern, &mut "s3+".to_string(), &alphabet, 5);
    check_all(&pattern, &mut "s3://".to_string(), &alphabet, 5);
    check_all(&pattern, &mut "s3+p://".to_string(), &alphabet, 5);
    check_all(&pattern, &mut "/s3://b/".to_string(), &alphabet, 4);
}
