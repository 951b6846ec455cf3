//! Choosing the video to play from the bucket's listing, and reading the
//! address it is fetched from.

use vstd::prelude::*;

verus! {

/// An error occurred with the S3 client.
#[derive(Clone, Copy, Debug, PartialEq, Eq)]
pub enum S3Error {
    /// The `S3_BUCKET_NAME` environment variable is not set.
    BucketNameUnset,
    /// An error occurred while listing videos.
    ListVideos,
    /// There are no videos found in the bucket.
    NoVideosFound,
    /// An error occurred while getting a video.
    GetObject,
    /// An error occurred while reading a video.
    ReadVideo,
    /// An error occured while parsing a video's URL.
    ParseUrl,
}

/// The text of the URL that `url::Url::parse` makes of `input` (its
/// serialization), or `None` when `input` is not an absolute URL.
pub uninterp spec fn url_parse(input: Seq<char>) -> Option<Seq<char>>;

/// `url::Url::parse`, the parsed URL handed back as its serialization (the
/// `String` that `url` converts a `Url` into). The result depends on the text
/// alone.
#[verifier::external_body]
fn parse_url(input: &str) -> (res: Option<String>)
    ensures
        match res {
            Some(text) => url_parse(input@) == Some(text@),
            None => url_parse(input@) is None,
        },
{
    url::Url::parse(input).ok().map(String::from)
}

/// `fastrand::usize(..len)`: a random index below `len` (which must not be
/// zero, as the range would be empty).
#[verifier::external_body]
fn random_index(len: usize) -> (i: usize)
    requires
        len > 0,
    ensures
        i < len,
{
    fastrand::usize(..len)
}

/// The names among the listed object keys, in listing order: the objects
/// that have a key.
pub open spec fn present_keys(keys: Seq<Option<String>>) -> Seq<Seq<char>>
    decreases keys.len(),
{
    if keys.len() == 0 {
        seq![]
    } else {
        present_keys(keys.drop_last()) + match keys.last() {
            Some(k) => seq![k@],
            None => seq![],
        }
    }
}

/// The text of an object's key, if it has one.
pub open spec fn key_text(key: Option<String>) -> Option<Seq<char>> {
    match key {
        Some(k) => Some(k@),
        None => None,
    }
}

/// Listing: every object that has a key gives a name, in listing order,
/// and every name is the key of a listed object. Adding an object with a key
/// to the end of the listing adds its name to the end; adding one without a
/// key adds nothing.
pub proof fn law_every_key_is_listed(keys: Seq<Option<String>>, k: String)
    ensures
        present_keys(keys.push(Some(k))) == present_keys(keys).push(k@),
        present_keys(keys.push(None)) == present_keys(keys),
        forall|i: int|
            0 <= i < keys.len() && (#[trigger] keys[i]) is Some ==> present_keys(keys).contains(
                keys[i]->0@,
            ),
        forall|j: int|
            #![trigger present_keys(keys)[j]]
            0 <= j < present_keys(keys).len() ==> exists|i: int|
                #![trigger keys[i]]
                0 <= i < keys.len() && key_text(keys[i]) == Some(present_keys(keys)[j]),
        present_keys(keys).len() <= keys.len(),
    decreases keys.len(),
{
    assert(keys.push(Some(k)).drop_last() =~= keys);
    assert(keys.push(None::<String>).drop_last() =~= keys);
    assert(present_keys(keys.push(Some(k))) =~= present_keys(keys).push(k@));
    assert(present_keys(keys.push(None)) =~= present_keys(keys));
    if keys.len() > 0 {
        let init = keys.drop_last();
        law_every_key_is_listed(init, k);
        assert(keys =~= init.push(keys.last()));
        let tail = match keys.last() {
            Some(x) => seq![x@],
            None => Seq::<Seq<char>>::empty(),
        };
        assert(present_keys(keys) == present_keys(init) + tail);
        assert forall|i: int| 0 <= i < keys.len() && (#[trigger] keys[i]) is Some implies present_keys(
            keys,
        ).contains(keys[i]->0@) by {
            if i < init.len() {
                assert(init[i] == keys[i]);
                let j = choose|j: int| 0 <= j < present_keys(init).len() && present_keys(init)[j] == keys[i]->0@;
                assert(present_keys(keys)[j] == keys[i]->0@);
            } else {
                assert(present_keys(keys)[present_keys(keys).len() - 1] == keys[i]->0@);
            }
        }
        assert forall|j: int| #![trigger present_keys(keys)[j]] 0 <= j < present_keys(keys).len() implies exists|i: int|
            #![trigger keys[i]]
            0 <= i < keys.len() && key_text(keys[i]) == Some(present_keys(keys)[j]) by {
            if j < present_keys(init).len() {
                assert(present_keys(keys)[j] == present_keys(init)[j]);
                let i = choose|i: int|
                    #![trigger init[i]]
                    0 <= i < init.len() && key_text(init[i]) == Some(present_keys(init)[j]);
                assert(keys[i] == init[i]);
            } else {
                assert(keys[keys.len() - 1] is Some);
                assert(keys[keys.len() - 1]->0@ == present_keys(keys)[j]);
            }
        }
    } else {
        assert(present_keys(keys) =~= Seq::<Seq<char>>::empty());
    }
}

/// Playing: every listed name but the static video's can be picked, in
/// listing order, and nothing else can.
pub proof fn law_every_video_but_static_is_playable(names: Seq<String>)
    ensures
        forall|i: int|
            0 <= i < names.len() && (#[trigger] names[i])@ != static_video_name() ==> playable(
                names,
            ).contains(names[i]@),
        forall|j: int|
            0 <= j < playable(names).len() ==> #[trigger] playable(names)[j] != static_video_name()
                && exists|i: int| 0 <= i < names.len() && names[i]@ == playable(names)[j],
    decreases names.len(),
{
    lemma_playable_members(names);
    if names.len() > 0 {
        let init = names.drop_last();
        law_every_video_but_static_is_playable(init);
        assert forall|i: int|
            0 <= i < names.len() && (#[trigger] names[i])@ != static_video_name() implies playable(
            names,
        ).contains(names[i]@) by {
            if i < init.len() {
                assert(init[i] == names[i]);
                let j = choose|j: int| 0 <= j < playable(init).len() && playable(init)[j] == names[i]@;
                assert(playable(names)[j] == names[i]@);
            } else {
                assert(playable(names)[playable(names).len() - 1] == names[i]@);
            }
        }
    }
}

/// Returns the list of video names from the keys of the listed objects,
/// skipping objects without a key.
pub fn video_names(keys: &Vec<Option<String>>) -> (names: Vec<String>)
    ensures
        names@.map_values(|n: String| n@) == present_keys(keys@),
{
    let mut names: Vec<String> = Vec::new();
    let mut i: usize = 0;
    while i < keys.len()
        invariant
            i <= keys@.len(),
            names@.map_values(|n: String| n@) == present_keys(keys@.take(i as int)),
        decreases keys@.len() - i,
    {
        assert(keys@.take(i + 1).drop_last() =~= keys@.take(i as int));
        match &keys[i] {
            Some(k) => {
                names.push(k.clone());
            },
            None => {},
        }
        assert(names@.map_values(|n: String| n@) =~= present_keys(keys@.take(i + 1)));
        i = i + 1;
    }
    assert(keys@.take(i as int) =~= keys@);
    names
}

/// The video name at `index` in the listing, or `NoVideosFound` when there
/// is none there.
pub fn pick_video_name(names: &Vec<String>, index: usize) -> (res: Result<String, S3Error>)
    ensures
        index < names@.len() ==> (res matches Ok(name) && name@ == names@[index as int]@),
        index >= names@.len() ==> res == Err::<String, S3Error>(S3Error::NoVideosFound),
{
    if index < names.len() {
        Ok(names[index].clone())
    } else {
        Err(S3Error::NoVideosFound)
    }
}

/// The name of the video that plays between videos; it is never picked to
/// play on its own.
pub open spec fn static_video_name() -> Seq<char> {
    "static.mp4"@
}

/// The names that can be picked to play, in listing order: every name but
/// the static video's.
pub open spec fn playable(names: Seq<String>) -> Seq<Seq<char>>
    decreases names.len(),
{
    if names.len() == 0 {
        seq![]
    } else {
        playable(names.drop_last()) + if names.last()@ == static_video_name() {
            seq![]
        } else {
            seq![names.last()@]
        }
    }
}

/// Every playable name is a listed name other than the static video's.
proof fn lemma_playable_members(names: Seq<String>)
    ensures
        forall|j: int|
            0 <= j < playable(names).len() ==> #[trigger] playable(names)[j] != static_video_name()
                && exists|i: int| 0 <= i < names.len() && names[i]@ == playable(names)[j],
    decreases names.len(),
{
    if names.len() > 0 {
        let init = names.drop_last();
        lemma_playable_members(init);
        assert forall|j: int| 0 <= j < playable(names).len() implies #[trigger] playable(names)[j]
            != static_video_name() && exists|i: int|
            0 <= i < names.len() && names[i]@ == playable(names)[j] by {
            if j < playable(init).len() {
                assert(playable(names)[j] == playable(init)[j]);
                let i = choose|i: int| 0 <= i < init.len() && init[i]@ == playable(init)[j];
                assert(names[i]@ == playable(names)[j]);
            } else {
                assert(names[names.len() - 1]@ == playable(names)[j]);
            }
        }
    }
}

/// The listed names that can be picked to play: all but the static video.
pub fn playable_names(names: &Vec<String>) -> (playable_list: Vec<String>)
    ensures
        playable_list@.map_values(|n: String| n@) == playable(names@),
{
    let static_name = "static.mp4".to_owned();
    let mut list: Vec<String> = Vec::new();
    let mut i: usize = 0;
    while i < names.len()
        invariant
            i <= names@.len(),
            static_name@ == static_video_name(),
            list@.map_values(|n: String| n@) == playable(names@.take(i as int)),
        decreases names@.len() - i,
    {
        assert(names@.take(i + 1).drop_last() =~= names@.take(i as int));
        if names[i] != static_name {
            list.push(names[i].clone());
        }
        assert(list@.map_values(|n: String| n@) =~= playable(names@.take(i + 1)));
        i = i + 1;
    }
    assert(names@.take(i as int) =~= names@);
    list
}

/// A name picked at random among the playable ones (every listed name but
/// the static video's); `NoVideosFound` when there is none.
pub fn random_video_name(names: &Vec<String>) -> (res: Result<String, S3Error>)
    ensures
        playable(names@).len() == 0 <==> res is Err,
        res is Err ==> res == Err::<String, S3Error>(S3Error::NoVideosFound),
        res matches Ok(name) ==> name@ != static_video_name() && exists|i: int|
            0 <= i < names@.len() && name@ == #[trigger] names@[i]@,
{
    let candidates = playable_names(names);
    proof {
        lemma_playable_members(names@);
        assert(candidates@.len() == playable(names@).len());
    }
    if candidates.len() == 0 {
        return Err(S3Error::NoVideosFound);
    }
    let index = random_index(candidates.len());
    let res = pick_video_name(&candidates, index);
    assert(candidates@[index as int]@ == playable(names@)[index as int]);
    res
}

/// The address of a video, read from the presigned request's URI and
/// normalized as `url::Url::parse` does; `ParseUrl` when it is not an
/// absolute URL.
pub fn parse_video_url(uri: &str) -> (res: Result<String, S3Error>)
    ensures
        match res {
            Ok(text) => url_parse(uri@) == Some(text@),
            Err(e) => url_parse(uri@) is None && e == S3Error::ParseUrl,
        },
{
    match parse_url(uri) {
        Some(text) => Ok(text),
        None => Err(S3Error::ParseUrl),
    }
}

} // verus!
