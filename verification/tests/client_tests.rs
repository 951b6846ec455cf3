use lvp::client::{parse_video_url, pick_video_name, random_video_name, video_names, S3Error};
use lvp::config::Config;
use lvp::frame::Dimensions;

#[test]
fn objects_without_keys_are_skipped() {
    let keys = vec![Some("a.mp4".to_string()), None, Some("b.mp4".to_string())];
    assert_eq!(video_names(&keys), vec!["a.mp4".to_string(), "b.mp4".to_string()]);
    assert!(video_names(&vec![None, None]).is_empty());
}

#[test]
fn pick_by_index() {
    let names = vec!["a".to_string(), "b".to_string()];
    assert_eq!(pick_video_name(&names, 1), Ok("b".to_string()));
    assert_eq!(pick_video_name(&names, 2), Err(S3Error::NoVideosFound));
}

#[test]
fn empty_bucket_has_no_video() {
    assert_eq!(random_video_name(&vec![]), Err(S3Error::NoVideosFound));
}

#[test]
fn random_name_comes_from_the_listing() {
    let names = vec!["a".to_string(), "b".to_string(), "c".to_string()];
    for _ in 0..50 {
        let n = random_video_name(&names).unwrap();
        assert!(names.contains(&n));
    }
    assert_eq!(random_video_name(&vec!["only".to_string()]), Ok("only".to_string()));
}

#[test]
fn video_url_is_parsed() {
    assert_eq!(
        parse_video_url("https://s3.example.net/lvp/a.mp4?X-Amz-Expires=300"),
        Ok("https://s3.example.net/lvp/a.mp4?X-Amz-Expires=300".to_string())
    );
    // the address is normalized as the url crate parses it
    assert_eq!(
        parse_video_url("HTTPS://S3.Example.NET/lvp/../a.mp4"),
        Ok("https://s3.example.net/a.mp4".to_string())
    );
    assert_eq!(parse_video_url("not a url"), Err(S3Error::ParseUrl));
}

fn config(width: Option<u32>, height: Option<u32>, n_streams: usize) -> Config {
    Config {
        aws_access_key_id: "id".to_string(),
        aws_secret_access_key: "key".to_string(),
        aws_endpoint_url: "http://localhost:9000".to_string(),
        aws_region: "default".to_string(),
        s3_bucket_name: "lvp".to_string(),
        pixelflut_address: "localhost:1337".to_string(),
        max_width: 640,
        max_height: 540,
        pixelflut_width: width,
        pixelflut_height: height,
        n_streams,
        binary: true,
    }
}

#[test]
fn canvas_is_configured_only_with_both_sides() {
    assert_eq!(config(Some(1920), Some(1080), 1).canvas_override(), Some(Dimensions::new(1920, 1080)));
    assert_eq!(config(Some(1920), None, 1).canvas_override(), None);
    assert_eq!(config(None, Some(1080), 1).canvas_override(), None);
}

#[test]
fn at_least_one_stream() {
    assert_eq!(config(None, None, 0).stream_count(), 1);
    assert_eq!(config(None, None, 8).stream_count(), 8);
}

#[test]
fn static_video_is_never_picked() {
    assert_eq!(random_video_name(&vec!["static.mp4".to_string()]), Err(S3Error::NoVideosFound));
    let names = vec!["static.mp4".to_string(), "a.mp4".to_string(), "static.mp4".to_string()];
    for _ in 0..50 {
        assert_eq!(random_video_name(&names), Ok("a.mp4".to_string()));
    }
    assert_eq!(lvp::client::playable_names(&names), vec!["a.mp4".to_string()]);
}
