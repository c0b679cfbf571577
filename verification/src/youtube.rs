//! Caption-track selection by an ordered language-preference list, and
//! flattening of a downloaded caption track into plain text.

use vstd::prelude::*;
use vstd::string::*;
use crate::text::{find_char, join_with, lemma_find_char, lemma_find_char_at, lemma_join_with_push,
    lemma_join_with_concat, str_to_chars};
use crate::SummaryError;

verus! {

/// One available caption track: its language tag. The provider-side fetch
/// handle stays with the caller, which keeps the tracks in listing order.
pub struct CaptionTrack {
    pub lang_tag: String,
}

/// One text segment of a caption event.
pub struct Segment {
    pub utf8: String,
}

/// One caption event: an optional ordered run of text segments.
pub struct Event {
    pub segs: Option<Vec<Segment>>,
}

/// A downloaded caption track: a flat ordered run of events.
pub struct Transcript {
    pub events: Vec<Event>,
}

/// The primary subtag of a language tag: everything before the first `-`.
pub open spec fn primary_subtag(t: Seq<char>) -> Seq<char> {
    t.take(find_char(t, '-'))
}

/// Semantic language-tag match: equal primary subtags, so a regional
/// sub-variant matches its base tag.
pub open spec fn lang_matches(pref: Seq<char>, tag: Seq<char>) -> bool {
    primary_subtag(pref) == primary_subtag(tag)
}

/// Some track in `tags` semantically matches `pref`.
pub open spec fn some_track_matches(pref: Seq<char>, tags: Seq<Seq<char>>) -> bool {
    exists|j: int| 0 <= j < tags.len() && lang_matches(pref, tags[j])
}

/// Index of the first preference with a semantic match among `tags`, or
/// `prefs.len()` if none has one.
pub open spec fn matched_pref_index(prefs: Seq<Seq<char>>, tags: Seq<Seq<char>>) -> int
    decreases prefs.len(),
{
    if prefs.len() == 0 {
        0
    } else if some_track_matches(prefs[0], tags) {
        0
    } else {
        1 + matched_pref_index(prefs.skip(1), tags)
    }
}

/// Index of the first tag equal to `p`, or `tags.len()` if none is.
pub open spec fn exact_tag_index(tags: Seq<Seq<char>>, p: Seq<char>) -> int
    decreases tags.len(),
{
    if tags.len() == 0 {
        0
    } else if tags[0] == p {
        0
    } else {
        1 + exact_tag_index(tags.skip(1), p)
    }
}

/// The language tags of a track listing, in listing order.
pub open spec fn track_tags(tracks: Seq<CaptionTrack>) -> Seq<Seq<char>> {
    Seq::new(tracks.len(), |i: int| tracks[i].lang_tag@)
}

/// Selection follows the preference order: the matched preference is the
/// first with a semantic match among the tracks — nothing before
/// `matched_pref_index` matches, the index itself matches while it is in
/// range, and it leaves the range exactly when no preference matches at all.
/// `select_track` then returns the first track equal to that preference.
pub proof fn lemma_matched_pref_index(prefs: Seq<Seq<char>>, tags: Seq<Seq<char>>)
    ensures
        0 <= matched_pref_index(prefs, tags) <= prefs.len(),
        matched_pref_index(prefs, tags) < prefs.len() ==> some_track_matches(
            prefs[matched_pref_index(prefs, tags)],
            tags,
        ),
        forall|i: int|
            0 <= i < matched_pref_index(prefs, tags) ==> !some_track_matches(prefs[i], tags),
    decreases prefs.len(),
{
    if prefs.len() == 0 {
    } else if some_track_matches(prefs[0], tags) {
    } else {
        lemma_matched_pref_index(prefs.skip(1), tags);
        assert forall|i: int| 0 <= i < matched_pref_index(prefs, tags) implies !some_track_matches(
            prefs[i],
            tags,
        ) by {
            if i >= 1 {
                assert(prefs.skip(1)[i - 1] == prefs[i]);
            }
        }
        if matched_pref_index(prefs, tags) < prefs.len() {
            assert(prefs.skip(1)[matched_pref_index(prefs, tags) - 1] == prefs[matched_pref_index(
                prefs,
                tags,
            )]);
        }
    }
}

/// A position with no match before it and a match at it (or none anywhere)
/// is where `matched_pref_index` points.
proof fn lemma_matched_pref_index_at(prefs: Seq<Seq<char>>, tags: Seq<Seq<char>>, k: int)
    requires
        0 <= k <= prefs.len(),
        forall|i: int| 0 <= i < k ==> !some_track_matches(prefs[i], tags),
        k < prefs.len() ==> some_track_matches(prefs[k], tags),
    ensures
        matched_pref_index(prefs, tags) == k,
    decreases prefs.len(),
{
    if prefs.len() == 0 {
    } else if some_track_matches(prefs[0], tags) {
        assert(k == 0);
    } else {
        assert(k >= 1);
        assert forall|i: int| 0 <= i < k - 1 implies !some_track_matches(
            prefs.skip(1)[i],
            tags,
        ) by {
            assert(prefs.skip(1)[i] == prefs[i + 1]);
        }
        if k - 1 < prefs.skip(1).len() {
            assert(prefs.skip(1)[k - 1] == prefs[k]);
        }
        lemma_matched_pref_index_at(prefs.skip(1), tags, k - 1);
    }
}

/// A position with no equal tag before it and an equal tag at it (or none
/// anywhere) is where `exact_tag_index` points.
proof fn lemma_exact_tag_index_at(tags: Seq<Seq<char>>, p: Seq<char>, k: int)
    requires
        0 <= k <= tags.len(),
        forall|j: int| 0 <= j < k ==> tags[j] != p,
        k < tags.len() ==> tags[k] == p,
    ensures
        exact_tag_index(tags, p) == k,
    decreases tags.len(),
{
    if tags.len() == 0 {
    } else if tags[0] == p {
        assert(k == 0);
    } else {
        assert(k >= 1);
        assert forall|j: int| 0 <= j < k - 1 implies tags.skip(1)[j] != p by {
            assert(tags.skip(1)[j] == tags[j + 1]);
        }
        if k - 1 < tags.skip(1).len() {
            assert(tags.skip(1)[k - 1] == tags[k]);
        }
        lemma_exact_tag_index_at(tags.skip(1), p, k - 1);
    }
}

/// Length of the primary subtag of `v`.
fn primary_len(v: &Vec<char>) -> (r: usize)
    ensures
        r == find_char(v@, '-'),
{
    let n: usize = v.len();
    let mut i: usize = 0;
    while i < n
        invariant
            i <= n,
            n == v@.len(),
            forall|j: int| 0 <= j < i ==> v@[j] != '-',
        decreases n - i,
    {
        if v[i] == '-' {
            proof {
                lemma_find_char_at(v@, '-', i as int);
            }
            return i;
        }
        i += 1;
    }
    proof {
        lemma_find_char_at(v@, '-', n as int);
    }
    n
}

/// Semantic language-tag match of two tags.
pub fn tags_match(pref: &str, tag: &str) -> (r: bool)
    ensures
        r == lang_matches(pref@, tag@),
{
    let pv = str_to_chars(pref);
    let tv = str_to_chars(tag);
    let pl = primary_len(&pv);
    let tl = primary_len(&tv);
    proof {
        lemma_find_char(pv@, '-');
        lemma_find_char(tv@, '-');
    }
    if pl != tl {
        proof {
            assert(primary_subtag(pref@).len() == pl);
            assert(primary_subtag(tag@).len() == tl);
        }
        return false;
    }
    let mut i: usize = 0;
    while i < pl
        invariant
            i <= pl,
            pl == tl,
            pv@ == pref@,
            tv@ == tag@,
            pl <= pv@.len(),
            tl <= tv@.len(),
            pl == find_char(pv@, '-'),
            tl == find_char(tv@, '-'),
            forall|j: int| 0 <= j < i ==> pv@[j] == tv@[j],
        decreases pl - i,
    {
        if pv[i] != tv[i] {
            proof {
                assert(primary_subtag(pref@)[i as int] != primary_subtag(tag@)[i as int]);
            }
            return false;
        }
        i += 1;
    }
    proof {
        assert(primary_subtag(pref@) =~= primary_subtag(tag@));
    }
    true
}

/// Does any track in the listing semantically match `pref`?
fn any_track_matches(pref: &String, tracks: &Vec<CaptionTrack>) -> (r: bool)
    ensures
        r == some_track_matches(pref@, track_tags(tracks@)),
{
    let n: usize = tracks.len();
    let mut j: usize = 0;
    while j < n
        invariant
            j <= n,
            n == tracks@.len(),
            forall|t: int| 0 <= t < j ==> !lang_matches(pref@, track_tags(tracks@)[t]),
        decreases n - j,
    {
        if tags_match(pref.as_str(), tracks[j].lang_tag.as_str()) {
            proof {
                assert(track_tags(tracks@)[j as int] == tracks@[j as int].lang_tag@);
            }
            return true;
        }
        j += 1;
    }
    false
}

/// The first preference tag, in list order, that semantically matches some
/// track of the listing.
pub fn get_caption_language(prefs: &Vec<String>, tracks: &Vec<CaptionTrack>) -> (r: Option<String>)
    ensures
        (r matches Option::Some(p) ==> {
            let mi = matched_pref_index(prefs.deep_view(), track_tags(tracks@));
            &&& mi < prefs@.len()
            &&& p@ == prefs.deep_view()[mi]
        }),
        r is None ==> matched_pref_index(prefs.deep_view(), track_tags(tracks@)) == prefs@.len(),
{
    let ghost ps = prefs.deep_view();
    proof {
        assert(ps.len() == prefs@.len());
        assert forall|i: int| 0 <= i < ps.len() implies ps[i] == prefs@[i]@ by {
            assert(ps[i] == prefs@[i].deep_view());
        }
    }
    let n: usize = prefs.len();
    let mut i: usize = 0;
    while i < n
        invariant
            i <= n,
            n == prefs@.len(),
            ps == prefs.deep_view(),
            ps.len() == n,
            forall|t: int| 0 <= t < ps.len() ==> ps[t] == prefs@[t]@,
            forall|t: int| 0 <= t < i ==> !some_track_matches(ps[t], track_tags(tracks@)),
        decreases n - i,
    {
        if any_track_matches(&prefs[i], tracks) {
            proof {
                lemma_matched_pref_index_at(ps, track_tags(tracks@), i as int);
            }
            return Some(prefs[i].clone());
        }
        i += 1;
    }
    proof {
        lemma_matched_pref_index_at(ps, track_tags(tracks@), n as int);
    }
    None
}

/// Index of the selected caption track: the first track whose tag equals,
/// exactly, the first preference with a semantic match. Fails with
/// `NoMatchingTrack` when no preference matches any track, or when the
/// matched preference equals no track tag exactly.
pub fn select_track(prefs: &Vec<String>, tracks: &Vec<CaptionTrack>) -> (r: Result<
    usize,
    SummaryError,
>)
    ensures
        ({
            let ps = prefs.deep_view();
            let ts = track_tags(tracks@);
            let mi = matched_pref_index(ps, ts);
            match r {
                Ok(j) => {
                    &&& mi < ps.len()
                    &&& j < ts.len()
                    &&& ts[j as int] == ps[mi]
                    &&& exact_tag_index(ts, ps[mi]) == j
                },
                Err(e) => {
                    &&& e is NoMatchingTrack
                    &&& (mi == ps.len() || exact_tag_index(ts, ps[mi]) == ts.len())
                },
            }
        }),
{
    let ghost ps = prefs.deep_view();
    let ghost ts = track_tags(tracks@);
    proof {
        assert(ps.len() == prefs@.len());
        assert(ts.len() == tracks@.len());
        lemma_matched_pref_index(ps, ts);
    }
    match get_caption_language(prefs, tracks) {
        None => Err(SummaryError::NoMatchingTrack),
        Some(p) => {
            let n: usize = tracks.len();
            let mut j: usize = 0;
            while j < n
                invariant
                    j <= n,
                    n == tracks@.len(),
                    ts == track_tags(tracks@),
                    ts.len() == n,
                    ps == prefs.deep_view(),
                    matched_pref_index(ps, ts) < ps.len(),
                    p@ == ps[matched_pref_index(ps, ts)],
                    forall|t: int| 0 <= t < j ==> ts[t] != p@,
                decreases n - j,
            {
                if tracks[j].lang_tag.eq(&p) {
                    proof {
                        assert(ts[j as int] == tracks@[j as int].lang_tag@);
                        lemma_exact_tag_index_at(ts, p@, j as int);
                    }
                    return Ok(j);
                }
                proof {
                    assert(ts[j as int] == tracks@[j as int].lang_tag@);
                }
                j += 1;
            }
            proof {
                lemma_exact_tag_index_at(ts, p@, n as int);
            }
            Err(SummaryError::NoMatchingTrack)
        },
    }
}

/// The texts of one event's segments, in order; an absent segment list
/// contributes nothing.
pub open spec fn event_texts(e: Event) -> Seq<Seq<char>> {
    match e.segs {
        Option::None => Seq::empty(),
        Option::Some(v) => Seq::new(v@.len(), |i: int| v@[i].utf8@),
    }
}

/// The texts of all segments of all events, in original order.
pub open spec fn transcript_texts(events: Seq<Event>) -> Seq<Seq<char>>
    decreases events.len(),
{
    if events.len() == 0 {
        Seq::empty()
    } else {
        event_texts(events[0]) + transcript_texts(events.skip(1))
    }
}

/// The flattened transcript: every segment text of every event, joined in
/// original order with single spaces. An all-empty transcript is the empty
/// string.
pub fn flatten_transcript(t: &Transcript) -> (r: String)
    ensures
        r@ == join_with(transcript_texts(t.events@), seq![' ']),
{
    let ghost all = t.events@;
    let n: usize = t.events.len();
    let mut out = String::new();
    let mut any: bool = false;
    let ghost mut acc: Seq<Seq<char>> = Seq::empty();
    let mut i: usize = 0;
    proof {
        reveal_strlit(" ");
        assert(all.skip(0) =~= all);
        assert(acc + transcript_texts(all) =~= transcript_texts(all));
    }
    while i < n
        invariant
            i <= n,
            n == all.len(),
            all == t.events@,
            any == (acc.len() > 0),
            out@ == join_with(acc, seq![' ']),
            " "@ == seq![' '],
            transcript_texts(all) == acc + transcript_texts(all.skip(i as int)),
        decreases n - i,
    {
        let ghost rem = all.skip(i as int);
        proof {
            assert(rem[0] == all[i as int]);
            assert(rem.skip(1) =~= all.skip(i as int + 1));
            assert(transcript_texts(rem) == event_texts(all[i as int]) + transcript_texts(
                all.skip(i as int + 1),
            ));
        }
        match &t.events[i].segs {
            None => {
                proof {
                    assert(event_texts(all[i as int]) =~= Seq::<Seq<char>>::empty());
                    assert(event_texts(all[i as int]) + transcript_texts(all.skip(i as int + 1))
                        =~= transcript_texts(all.skip(i as int + 1)));
                }
            },
            Some(segs) => {
                let ghost ev = event_texts(all[i as int]);
                proof {
                    assert(ev.len() == segs@.len());
                    assert(acc + (ev + transcript_texts(all.skip(i as int + 1))) =~= (acc + ev)
                        + transcript_texts(all.skip(i as int + 1)));
                }
                let m: usize = segs.len();
                let mut j: usize = 0;
                while j < m
                    invariant
                        j <= m,
                        m == segs@.len(),
                        ev == event_texts(all[i as int]),
                        ev.len() == m,
                        forall|u: int| 0 <= u < m ==> ev[u] == segs@[u].utf8@,
                        any == (acc.len() > 0),
                        out@ == join_with(acc, seq![' ']),
                        " "@ == seq![' '],
                        transcript_texts(all) == (acc + ev.skip(j as int)) + transcript_texts(
                            all.skip(i as int + 1),
                        ),
                    decreases m - j,
                {
                    if any {
                        out.append(" ");
                    }
                    out.append(segs[j].utf8.as_str());
                    proof {
                        lemma_join_with_push(acc, seq![' '], ev[j as int]);
                        assert(ev.skip(j as int)[0] == ev[j as int]);
                        assert(ev.skip(j as int).skip(1) =~= ev.skip(j as int + 1));
                        assert((acc + ev.skip(j as int)) =~= (acc.push(ev[j as int]) + ev.skip(
                            j as int + 1,
                        )));
                        acc = acc.push(ev[j as int]);
                    }
                    any = true;
                    j += 1;
                }
                proof {
                    assert(ev.skip(m as int) =~= Seq::<Seq<char>>::empty());
                    assert(acc + ev.skip(m as int) =~= acc);
                }
            },
        }
        i += 1;
    }
    proof {
        assert(all.skip(n as int) =~= Seq::<Event>::empty());
        assert(transcript_texts(Seq::<Event>::empty()) =~= Seq::<Seq<char>>::empty());
        assert(acc + transcript_texts(all.skip(n as int)) =~= acc);
    }
    out
}

/// Splitting a transcript's events splits its texts.
pub proof fn lemma_transcript_texts_concat(a: Seq<Event>, b: Seq<Event>)
    ensures
        transcript_texts(a + b) == transcript_texts(a) + transcript_texts(b),
    decreases a.len(),
{
    if a.len() == 0 {
        assert(a + b =~= b);
        assert(transcript_texts(a) + transcript_texts(b) =~= transcript_texts(b));
    } else {
        assert((a + b)[0] == a[0]);
        assert((a + b).skip(1) =~= a.skip(1) + b);
        lemma_transcript_texts_concat(a.skip(1), b);
        assert(transcript_texts(a + b) == event_texts(a[0]) + (transcript_texts(a.skip(1))
            + transcript_texts(b)));
        assert(event_texts(a[0]) + (transcript_texts(a.skip(1)) + transcript_texts(b))
            =~= (event_texts(a[0]) + transcript_texts(a.skip(1))) + transcript_texts(b));
    }
}

/// Flattening is associative over event order: the flattening of two event
/// runs, each contributing some text, is their flattenings joined by one
/// space.
pub proof fn lemma_flatten_order(a: Seq<Event>, b: Seq<Event>)
    requires
        transcript_texts(a).len() > 0,
        transcript_texts(b).len() > 0,
    ensures
        join_with(transcript_texts(a + b), seq![' ']) == join_with(transcript_texts(a), seq![' '])
            + seq![' '] + join_with(transcript_texts(b), seq![' ']),
{
    lemma_transcript_texts_concat(a, b);
    lemma_join_with_concat(transcript_texts(a), transcript_texts(b), seq![' ']);
}

/// An event with an absent segment list contributes no text and no extra
/// separator: flattening with it equals flattening without it.
pub proof fn lemma_absent_segments(a: Seq<Event>, e: Event, b: Seq<Event>)
    requires
        e.segs is None,
    ensures
        join_with(transcript_texts(a + seq![e] + b), seq![' ']) == join_with(
            transcript_texts(a + b),
            seq![' '],
        ),
{
    lemma_transcript_texts_concat(a + seq![e], b);
    lemma_transcript_texts_concat(a, seq![e]);
    lemma_transcript_texts_concat(a, b);
    assert(transcript_texts(seq![e]) == event_texts(e) + transcript_texts(
        Seq::<Event>::empty(),
    )) by {
        assert(seq![e][0] == e);
        assert(seq![e].skip(1) =~= Seq::<Event>::empty());
    }
    assert(transcript_texts(seq![e]) =~= Seq::<Seq<char>>::empty());
    assert(transcript_texts(a) + transcript_texts(seq![e]) =~= transcript_texts(a));
    assert(transcript_texts(a + seq![e] + b) =~= transcript_texts(a + b));
}

/// The next caption-listing fetch to attempt, given how many preferences
/// failed so far: the next preference tag in order, or giving up when the
/// list is exhausted.
pub enum FetchStep {
    Try { tag: String },
    GiveUp,
}

/// Which language tag to try fetching next. The caller performs the fetch
/// and, on failure, asks again with `attempts + 1`; `GiveUp` means the whole
/// operation fails with `SourceUnavailable`.
pub fn next_fetch_attempt(prefs: &Vec<String>, attempts: usize) -> (r: FetchStep)
    ensures
        attempts < prefs@.len() ==> (r matches FetchStep::Try { tag } && tag@ == prefs@[
            attempts as int
        ]@),
        attempts >= prefs@.len() ==> r is GiveUp,
{
    if attempts < prefs.len() {
        FetchStep::Try { tag: prefs[attempts].clone() }
    } else {
        FetchStep::GiveUp
    }
}

} // verus!
