//! Topic filters of subscriptions: parsing a filter into
//! segments and matching topic names against it.
use vstd::prelude::*;
use vstd::string::StrSliceExecFns;

verus! {

broadcast use vstd::seq_lib::group_seq_properties;

/// The characters of a string slice, in order.
pub fn chars_of(s: &str) -> (v: Vec<char>)
    ensures
        v@ == s@,
{
    let mut v: Vec<char> = Vec::new();
    for c in it: s.chars()
        invariant
            v@ == it.seq().take(it.index() as int),
            it.seq() == s@,
    {
        v.push(c);
    }
    v
}

/// Splitting a topic (name or filter) at each '/': the levels of the topic, each possibly empty.
pub open spec fn spec_split(s: Seq<char>) -> Seq<Seq<char>>
    decreases s.len(),
{
    if s.len() == 0 {
        seq![Seq::<char>::empty()]
    } else {
        let init = spec_split(s.drop_last());
        if s.last() == '/' {
            init.push(Seq::<char>::empty())
        } else {
            init.update(init.len() - 1, init.last().push(s.last()))
        }
    }
}

pub proof fn lemma_split_nonempty(s: Seq<char>)
    ensures
        spec_split(s).len() >= 1,
    decreases s.len(),
{
    if s.len() > 0 {
        lemma_split_nonempty(s.drop_last());
    }
}

/// Splits a topic at each '/'.
pub fn split_topic(s: &str) -> (parts: Vec<String>)
    ensures
        parts.deep_view() == spec_split(s@),
{
    let chars = chars_of(s);
    let mut parts: Vec<String> = Vec::new();
    let mut start: usize = 0;
    let mut i: usize = 0;
    while i < chars.len()
        invariant
            chars@ == s@,
            start <= i <= chars@.len(),
            parts.deep_view().push(chars@.subrange(start as int, i as int)) == spec_split(
                chars@.take(i as int),
            ),
        decreases chars@.len() - i,
    {
        let ghost prev = chars@.take(i as int);
        proof { lemma_split_nonempty(prev); }
        assert(chars@.take(i + 1).drop_last() == prev);
        if chars[i] == '/' {
            let part = s.substring_char(start, i).to_owned();
            let ghost dv = parts.deep_view();
            parts.push(part);
            assert(parts.deep_view() == dv.push(chars@.subrange(start as int, i as int)));
            start = i + 1;
            i = i + 1;
            assert(chars@.subrange(start as int, i as int) == Seq::<char>::empty());
        } else {
            i = i + 1;
            assert(chars@.subrange(start as int, i as int) == chars@.subrange(
                start as int,
                i - 1,
            ).push(chars@[i - 1]));
        }
    }
    let last = s.substring_char(start, i).to_owned();
    let ghost dv = parts.deep_view();
    parts.push(last);
    assert(parts.deep_view() == dv.push(chars@.subrange(start as int, i as int)));
    assert(chars@.take(i as int) == s@);
    parts
}

/// One level of a topic filter.
#[derive(Debug, Clone)]
pub enum Segment {
    Literal(String),
    MultiLevelWildcard,
    SingleLevelWildcard,
}

pub enum SegmentModel {
    Literal(Seq<char>),
    MultiLevelWildcard,
    SingleLevelWildcard,
}

impl DeepView for Segment {
    type V = SegmentModel;

    open spec fn deep_view(&self) -> SegmentModel {
        match self {
            Segment::Literal(s) => SegmentModel::Literal(s@),
            Segment::MultiLevelWildcard => SegmentModel::MultiLevelWildcard,
            Segment::SingleLevelWildcard => SegmentModel::SingleLevelWildcard,
        }
    }
}

/// A parsed topic filter.
#[derive(Debug, Clone)]
pub struct TopicFilter {
    segments: Vec<Segment>,
}

impl DeepView for TopicFilter {
    type V = Seq<SegmentModel>;

    closed spec fn deep_view(&self) -> Seq<SegmentModel> {
        self.segments.deep_view()
    }
}

/// Why a topic filter was refused.
#[derive(Debug, Clone)]
pub enum TopicFilterError {
    ParseError(String),
}

impl TopicFilterError {
    /// The text of the error: its message.
    pub fn message(&self) -> (res: String)
        ensures
            match self {
                TopicFilterError::ParseError(m) => res@ == m@,
            },
    {
        match self {
            TopicFilterError::ParseError(m) => m.clone(),
        }
    }
}

/// The message of the error for a '#' that is not the last level.
pub open spec fn multi_level_not_last_message() -> Seq<char> {
    "MultiLevelWildcard is only supported as the last segment"@
}

/// The message of the error for a level that holds a wildcard among other characters.
pub open spec fn wildcard_in_level_message() -> Seq<char> {
    "A segment can't contain '+' nor '#'."@
}

/// What one level of a filter is, or the message of the error it gives, `is_last` telling
/// whether it is the last level.
pub open spec fn spec_parse_segment(level: Seq<char>, is_last: bool) -> Result<
    SegmentModel,
    Seq<char>,
> {
    if level == seq!['#'] {
        if is_last {
            Ok(SegmentModel::MultiLevelWildcard)
        } else {
            Err(multi_level_not_last_message())
        }
    } else if level == seq!['+'] {
        Ok(SegmentModel::SingleLevelWildcard)
    } else if level.contains('+') || level.contains('#') {
        Err(wildcard_in_level_message())
    } else {
        Ok(SegmentModel::Literal(level))
    }
}

/// The segments of the levels from index `i` on, or the message of the first error among them.
pub open spec fn spec_parse_levels(levels: Seq<Seq<char>>, i: int) -> Result<
    Seq<SegmentModel>,
    Seq<char>,
>
    decreases levels.len() - i,
{
    if i < 0 || i >= levels.len() {
        Ok(Seq::empty())
    } else {
        match spec_parse_segment(levels[i], i == levels.len() - 1) {
            Err(m) => Err(m),
            Ok(seg) => match spec_parse_levels(levels, i + 1) {
                Ok(rest) => Ok(seq![seg] + rest),
                Err(m) => Err(m),
            },
        }
    }
}

/// The segments of a topic filter, or the message of the first error.
pub open spec fn spec_parse_topic_filter(filter: Seq<char>) -> Result<Seq<SegmentModel>, Seq<char>> {
    spec_parse_levels(spec_split(filter), 0)
}

/// One step of matching: the state after a filter segment (or its absence) is paired with a
/// name level (or its absence); `None` ends the match as a failure. `last_is_multilevel`
/// says whether a multi-level wildcard has been passed.
pub open spec fn spec_match_step(
    f: Seq<SegmentModel>,
    n: Seq<Seq<char>>,
    i: int,
    last_is_multilevel: bool,
) -> Option<bool> {
    if i < f.len() && i < n.len() {
        match f[i] {
            SegmentModel::MultiLevelWildcard => Some(true),
            SegmentModel::SingleLevelWildcard => Some(false),
            SegmentModel::Literal(x) => if x == n[i] {
                Some(false)
            } else {
                None
            },
        }
    } else if i < n.len() {
        if last_is_multilevel {
            Some(last_is_multilevel)
        } else {
            None
        }
    } else {
        match f[i] {
            SegmentModel::MultiLevelWildcard => Some(true),
            _ => None,
        }
    }
}

/// Whether matching succeeds from position `i` on, in state `last_is_multilevel`.
pub open spec fn spec_match_from(
    f: Seq<SegmentModel>,
    n: Seq<Seq<char>>,
    i: int,
    last_is_multilevel: bool,
) -> bool
    decreases f.len() + n.len() - i,
{
    if i < 0 || (i >= f.len() && i >= n.len()) {
        true
    } else {
        match spec_match_step(f, n, i, last_is_multilevel) {
            None => false,
            Some(next) => spec_match_from(f, n, i + 1, next),
        }
    }
}

/// Whether the topic name with levels `n` matches the filter with segments `f`.
pub open spec fn spec_matches(f: Seq<SegmentModel>, n: Seq<Seq<char>>) -> bool {
    spec_match_from(f, n, 0, false)
}

/// Whether a filter segment accepts a name level.
pub open spec fn segment_accepts(seg: SegmentModel, level: Seq<char>) -> bool {
    match seg {
        SegmentModel::Literal(x) => x == level,
        _ => true,
    }
}

/// A filter in which a multi-level wildcard can only be the last segment, as `new` builds them.
pub open spec fn well_formed_segments(f: Seq<SegmentModel>) -> bool {
    &&& f.len() >= 1
    &&& forall|i: int| 0 <= i < f.len() - 1 ==> !(f[i] is MultiLevelWildcard)
}

/// Each name level from `i` up to (not including) `end` exists and is accepted by the
/// filter segment at the same place.
pub open spec fn levels_accepted(f: Seq<SegmentModel>, n: Seq<Seq<char>>, i: int, end: int) -> bool
    decreases end - i,
{
    if i >= end {
        true
    } else {
        &&& 0 <= i < f.len()
        &&& i < n.len()
        &&& segment_accepts(f[i], n[i])
        &&& levels_accepted(f, n, i + 1, end)
    }
}

/// Topic matching as MQTT defines it: each level is accepted by the segment at the same
/// place; a filter that ends with '#' accepts any number (zero too) of further levels,
/// and otherwise the filter and the name have as many levels.
pub open spec fn mqtt_matches(f: Seq<SegmentModel>, n: Seq<Seq<char>>) -> bool {
    if f.last() is MultiLevelWildcard {
        &&& n.len() >= f.len() - 1
        &&& levels_accepted(f, n, 0, f.len() - 1)
    } else {
        &&& n.len() == f.len()
        &&& levels_accepted(f, n, 0, f.len() as int)
    }
}

impl TopicFilter {
    /// Parses a topic filter, level by level.
    pub fn new(filter: &str) -> (res: Result<TopicFilter, TopicFilterError>)
        ensures
            match res {
                Ok(tf) => spec_parse_topic_filter(filter@) == Ok::<Seq<SegmentModel>, Seq<char>>(
                    tf.deep_view(),
                ),
                Err(TopicFilterError::ParseError(m)) => spec_parse_topic_filter(filter@) == Err::<
                    Seq<SegmentModel>,
                    Seq<char>,
                >(m@),
            },
    {
        let levels = split_topic(filter);
        proof {
            lemma_split_nonempty(filter@);
        }
        let mut segments: Vec<Segment> = Vec::new();
        let mut i: usize = 0;
        let ghost lv = levels.deep_view();
        while i < levels.len()
            invariant
                lv == levels.deep_view(),
                lv == spec_split(filter@),
                i <= lv.len(),
                combine_levels(segments.deep_view(), spec_parse_levels(lv, i as int))
                    == spec_parse_levels(lv, 0),
            decreases lv.len() - i,
        {
            let is_last = i + 1 == levels.len();
            assert(levels.deep_view()[i as int] == levels[i as int]@);
            match parse_segment(&levels[i], is_last) {
                Ok(seg) => {
                    let ghost before = segments.deep_view();
                    segments.push(seg);
                    assert(segments.deep_view() == before.push(seg.deep_view()));
                    proof {
                        let r = spec_parse_levels(lv, i + 1);
                        match r {
                            Ok(rest) => {
                                assert(before + (seq![seg.deep_view()] + rest) == before.push(
                                    seg.deep_view(),
                                ) + rest);
                            },
                            Err(_) => {},
                        }
                    }
                    i = i + 1;
                },
                Err(e) => {
                    return Err(e);
                },
            }
        }
        Ok(TopicFilter { segments })
    }

    /// Whether a topic name matches this filter.
    pub fn matches(&self, filter_name: &str) -> (res: bool)
        ensures
            res == spec_matches(self.deep_view(), spec_split(filter_name@)),
    {
        let names = split_topic(filter_name);
        let ghost f = self.deep_view();
        let ghost n = names.deep_view();
        let mut last_is_multilevel = false;
        let mut i: usize = 0;
        while i < self.segments.len() || i < names.len()
            invariant
                f == self.segments.deep_view(),
                n == names.deep_view(),
                n == spec_split(filter_name@),
                i <= f.len() || i <= n.len(),
                spec_match_from(f, n, i as int, last_is_multilevel) == spec_matches(f, n),
            decreases f.len() + n.len() - i,
        {
            if i < self.segments.len() && i < names.len() {
                assert(f[i as int] == self.segments[i as int].deep_view());
                assert(n[i as int] == names[i as int]@);
                match &self.segments[i] {
                    Segment::MultiLevelWildcard => {
                        last_is_multilevel = true;
                    },
                    Segment::SingleLevelWildcard => {
                        last_is_multilevel = false;
                    },
                    Segment::Literal(filter_segment) => {
                        if *filter_segment == names[i] {
                            last_is_multilevel = false;
                        } else {
                            return false;
                        }
                    },
                }
            } else if i < names.len() {
                if !last_is_multilevel {
                    return false;
                }
            } else {
                assert(f[i as int] == self.segments[i as int].deep_view());
                match &self.segments[i] {
                    Segment::MultiLevelWildcard => {
                        last_is_multilevel = true;
                    },
                    _ => {
                        return false;
                    },
                }
            }
            i = i + 1;
        }
        true
    }
}

/// Adding the already parsed segments in front of what the remaining levels parse as.
pub open spec fn combine_levels(
    done: Seq<SegmentModel>,
    rest: Result<Seq<SegmentModel>, Seq<char>>,
) -> Result<Seq<SegmentModel>, Seq<char>> {
    match rest {
        Ok(r) => Ok(done + r),
        Err(m) => Err(m),
    }
}

/// Whether `c` occurs in `level`.
fn level_contains(level: &Vec<char>, c: char) -> (res: bool)
    ensures
        res == level@.contains(c),
{
    let mut i: usize = 0;
    while i < level.len()
        invariant
            i <= level@.len(),
            forall|j: int| 0 <= j < i ==> level@[j] != c,
        decreases level@.len() - i,
    {
        if level[i] == c {
            assert(level@[i as int] == c);
            return true;
        }
        i = i + 1;
    }
    false
}

/// Parses one level of a filter.
fn parse_segment(level: &String, is_last: bool) -> (res: Result<Segment, TopicFilterError>)
    ensures
        match res {
            Ok(seg) => spec_parse_segment(level@, is_last) == Ok::<SegmentModel, Seq<char>>(
                seg.deep_view(),
            ),
            Err(TopicFilterError::ParseError(m)) => spec_parse_segment(level@, is_last) == Err::<
                SegmentModel,
                Seq<char>,
            >(m@),
        },
{
    let chars = chars_of(level.as_str());
    if chars.len() == 1 && chars[0] == '#' {
        assert(chars@ == seq!['#']);
        if is_last {
            Ok(Segment::MultiLevelWildcard)
        } else {
            let m = "MultiLevelWildcard is only supported as the last segment".to_owned();
            Err(TopicFilterError::ParseError(m))
        }
    } else if chars.len() == 1 && chars[0] == '+' {
        assert(chars@ == seq!['+']);
        Ok(Segment::SingleLevelWildcard)
    } else {
        assert(chars@ != seq!['#'] && chars@ != seq!['+']) by {
            if chars@.len() == 1 {
                assert(chars@[0] == chars[0]);
            }
        }
        if level_contains(&chars, '+') || level_contains(&chars, '#') {
            let m = "A segment can't contain '+' nor '#'.".to_owned();
            Err(TopicFilterError::ParseError(m))
        } else {
            Ok(Segment::Literal(level.clone()))
        }
    }
}

/// What matching from level `i` on asks of a well-formed filter.
pub open spec fn matches_from_level(f: Seq<SegmentModel>, n: Seq<Seq<char>>, i: int) -> bool {
    if f.last() is MultiLevelWildcard {
        levels_accepted(f, n, i, f.len() - 1)
    } else {
        levels_accepted(f, n, i, if f.len() >= n.len() { f.len() as int } else { n.len() as int })
    }
}

proof fn lemma_levels_accepted_bounds(f: Seq<SegmentModel>, n: Seq<Seq<char>>, i: int, end: int)
    requires
        i < end,
        levels_accepted(f, n, i, end),
    ensures
        end <= f.len(),
        end <= n.len(),
    decreases end - i,
{
    if i + 1 < end {
        lemma_levels_accepted_bounds(f, n, i + 1, end);
    }
}

proof fn lemma_match_from_well_formed(f: Seq<SegmentModel>, n: Seq<Seq<char>>, i: int)
    requires
        well_formed_segments(f),
        0 <= i,
    ensures
        spec_match_from(f, n, i, i >= f.len() && f.last() is MultiLevelWildcard)
            == matches_from_level(f, n, i),
    decreases f.len() + n.len() - i,
{
    let last = i >= f.len() && f.last() is MultiLevelWildcard;
    let m = f.len() - 1;
    let multi = f.last() is MultiLevelWildcard;
    if i >= f.len() && i >= n.len() {
    } else {
        lemma_match_from_well_formed(f, n, i + 1);
        if i < f.len() && i < n.len() {
            if multi {
                if i < m {
                    assert(!(f[i] is MultiLevelWildcard));
                } else {
                    assert(f[i] is MultiLevelWildcard);
                }
            } else {
                assert(!(f[i] is MultiLevelWildcard)) by {
                    if i < m {
                    } else {
                        assert(f[i] == f.last());
                    }
                }
            }
        } else if i < n.len() {
        } else {
            if f[i] is MultiLevelWildcard {
                assert(i == m);
                assert(multi);
            } else {
                if multi {
                    assert(i != m);
                }
            }
        }
    }
}

proof fn lemma_parse_levels_well_formed(levels: Seq<Seq<char>>, i: int)
    requires
        0 <= i <= levels.len(),
        spec_parse_levels(levels, i) is Ok,
    ensures
        spec_parse_levels(levels, i)->Ok_0.len() == levels.len() - i,
        forall|j: int|
            0 <= j < levels.len() - i - 1 ==> !(#[trigger] spec_parse_levels(levels, i)->Ok_0[j] is MultiLevelWildcard),
    decreases levels.len() - i,
{
    if i < levels.len() {
        lemma_parse_levels_well_formed(levels, i + 1);
        let seg = spec_parse_segment(levels[i], i == levels.len() - 1)->Ok_0;
        let rest = spec_parse_levels(levels, i + 1)->Ok_0;
        let r = spec_parse_levels(levels, i)->Ok_0;
        assert(r == seq![seg] + rest);
        assert forall|j: int| 0 <= j < levels.len() - i - 1 implies !(#[trigger] r[j] is MultiLevelWildcard) by {
            if j > 0 {
                assert(r[j] == rest[j - 1]);
            }
        }
    }
}

/// A filter that `TopicFilter::new` accepts has a multi-level wildcard only as its last
/// segment, and as many segments as levels.
pub proof fn lemma_parsed_filter_well_formed(filter: Seq<char>)
    requires
        spec_parse_topic_filter(filter) is Ok,
    ensures
        well_formed_segments(spec_parse_topic_filter(filter)->Ok_0),
        spec_parse_topic_filter(filter)->Ok_0.len() == spec_split(filter).len(),
{
    lemma_split_nonempty(filter);
    lemma_parse_levels_well_formed(spec_split(filter), 0);
}

/// For a filter that `TopicFilter::new` accepts, `matches` is MQTT topic matching: every
/// level is accepted by the segment at its place; a trailing '#' accepts any number of
/// further levels (zero too); without it the name has as many levels as the filter.
pub proof fn lemma_matches_is_mqtt_matching(filter: Seq<char>, name: Seq<char>)
    requires
        spec_parse_topic_filter(filter) is Ok,
    ensures
        spec_matches(spec_parse_topic_filter(filter)->Ok_0, spec_split(name)) == mqtt_matches(
            spec_parse_topic_filter(filter)->Ok_0,
            spec_split(name),
        ),
{
    let f = spec_parse_topic_filter(filter)->Ok_0;
    let n = spec_split(name);
    lemma_parsed_filter_well_formed(filter);
    lemma_match_from_well_formed(f, n, 0);
    if f.last() is MultiLevelWildcard {
        if levels_accepted(f, n, 0, f.len() - 1) && f.len() >= 2 {
            lemma_levels_accepted_bounds(f, n, 0, f.len() - 1);
        }
    } else {
        let end = if f.len() >= n.len() { f.len() as int } else { n.len() as int };
        if levels_accepted(f, n, 0, end) {
            lemma_levels_accepted_bounds(f, n, 0, end);
        }
    }
}


/// A copy of a topic filter.
pub fn clone_topic_filter(tf: &TopicFilter) -> (r: TopicFilter)
    ensures
        r.deep_view() == tf.deep_view(),
{
    let mut segments: Vec<Segment> = Vec::new();
    let mut i: usize = 0;
    while i < tf.segments.len()
        invariant
            i <= tf.segments@.len(),
            segments.deep_view() == tf.segments.deep_view().take(i as int),
        decreases tf.segments@.len() - i,
    {
        let seg = match &tf.segments[i] {
            Segment::Literal(l) => Segment::Literal(l.clone()),
            Segment::MultiLevelWildcard => Segment::MultiLevelWildcard,
            Segment::SingleLevelWildcard => Segment::SingleLevelWildcard,
        };
        assert(seg.deep_view() == tf.segments.deep_view()[i as int]);
        let ghost before = segments.deep_view();
        segments.push(seg);
        assert(segments.deep_view() == before.push(seg.deep_view()));
        assert(segments.deep_view() =~= tf.segments.deep_view().take(i + 1));
        i = i + 1;
    }
    assert(tf.segments.deep_view().take(i as int) =~= tf.segments.deep_view());
    TopicFilter { segments }
}

} // verus!
