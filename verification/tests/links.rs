use wizards_bot::links::substitute_urls;

#[test]
fn twitter_to_nitter_desktop() {
    let val = substitute_urls("https://twitter.com/wezm");
    assert_eq!(
        val,
        "https://nitter.net/wezm ([source](https://twitter.com/wezm))",
    );
}

#[test]
fn x_to_nitter_desktop() {
    let val = substitute_urls("https://x.com/wezm");
    assert_eq!(
        val,
        "https://nitter.net/wezm ([source](https://x.com/wezm))",
    );
}

#[test]
fn twitter_to_nitter_mobile() {
    let val = substitute_urls(
        "https://mobile.twitter.com/wezm/status/1323096439602339840?s=20&t=Zper7b85RVlpWoTKKJDkbg",
    );
    assert_eq!(
        val,
        "https://nitter.net/wezm/status/1323096439602339840 ([source](https://mobile.twitter.com/wezm/status/1323096439602339840?s=20&t=Zper7b85RVlpWoTKKJDkbg))",
    );
}

#[test]
fn twitter_to_nitter_multiple() {
    let val = substitute_urls(
        "Here is some things from twitter.com https://twitter.com/wezm/status/1323096439602339840?s=20&t=Zper7b85RVlpWoTKKJDkbg and https://twitter.com/rustlang/status/1496894318887546883?s=20&t=Zper7b85RVlpWoTKKJDkbg",
    );
    assert_eq!(
        val,
        "Here is some things from twitter.com https://nitter.net/wezm/status/1323096439602339840 ([source](https://twitter.com/wezm/status/1323096439602339840?s=20&t=Zper7b85RVlpWoTKKJDkbg)) and https://nitter.net/rustlang/status/1496894318887546883 ([source](https://twitter.com/rustlang/status/1496894318887546883?s=20&t=Zper7b85RVlpWoTKKJDkbg))",
    );
}

#[test]
fn twitter_to_nitter_invalid() {
    let val = substitute_urls("https://twitter");
    assert_eq!(val, "https://twitter");
}

#[test]
fn x_tweet_to_nitter() {
    let val = substitute_urls(
        "https://x.com/nealagarwal/status/1691095252952834048?s=46&t=OJUN8AoB2f1zmJVHufidVg",
    );
    assert_eq!(
        val,
        "https://nitter.net/nealagarwal/status/1691095252952834048 ([source](https://x.com/nealagarwal/status/1691095252952834048?s=46&t=OJUN8AoB2f1zmJVHufidVg))",
    );
}

#[test]
fn medium_to_scribe() {
    let val = substitute_urls(
        "https://medium.com/swlh/make-your-raspberry-pi-file-system-read-only-raspbian-buster-c558694de79",
    );
    assert_eq!(
        val,
        "https://scribe.rip/swlh/make-your-raspberry-pi-file-system-read-only-raspbian-buster-c558694de79 ([source](https://medium.com/swlh/make-your-raspberry-pi-file-system-read-only-raspbian-buster-c558694de79))",
    );
}

#[test]
fn medium_to_scribe_subdomain() {
    let val = substitute_urls(
        "https://jxxcarlson.medium.com/lambda-calculus-an-elm-cli-fd537071db2b",
    );
    assert_eq!(
        val,
        "https://scribe.rip/lambda-calculus-an-elm-cli-fd537071db2b ([source](https://jxxcarlson.medium.com/lambda-calculus-an-elm-cli-fd537071db2b))",
    );
}

#[test]
fn substitute_urls_mixed() {
    let val = substitute_urls(
        "Here are some things from twitter.com https://twitter.com/wezm/status/1323096439602339840?s=20&t=Zper7b85RVlpWoTKKJDkbg and Medium https://jxxcarlson.medium.com/lambda-calculus-an-elm-cli-fd537071db2b",
    );
    assert_eq!(
        val,
        "Here are some things from twitter.com https://nitter.net/wezm/status/1323096439602339840 ([source](https://twitter.com/wezm/status/1323096439602339840?s=20&t=Zper7b85RVlpWoTKKJDkbg)) and Medium https://scribe.rip/lambda-calculus-an-elm-cli-fd537071db2b ([source](https://jxxcarlson.medium.com/lambda-calculus-an-elm-cli-fd537071db2b))",
    );
}

#[test]
fn plain_text_untouched() {
    let val = substitute_urls("no links here, just words");
    assert_eq!(val, "no links here, just words");
}

#[test]
fn unknown_host_untouched() {
    let val = substitute_urls("see https://example.com/page?q=1 for more");
    assert_eq!(val, "see https://example.com/page?q=1 for more");
}
