use vstd::prelude::*;

verus! {

/// What a visit to the link page asks for: a new link, or renewing the
/// credential of an existing one whose token is given.
#[derive(Debug, Clone, PartialEq, Eq)]
pub enum LinkMode {
    Create,
    Update(String),
}

pub enum LinkModeView {
    Create,
    Update(Seq<char>),
}

impl View for LinkMode {
    type V = LinkModeView;

    open spec fn view(&self) -> LinkModeView {
        match self {
            LinkMode::Create => LinkModeView::Create,
            LinkMode::Update(t) => LinkModeView::Update(t@),
        }
    }
}

/// Why the query of a link request was refused.
#[derive(Debug, Clone, Copy, PartialEq, Eq, Structural)]
pub enum LinkModeError {
    /// `mode` is neither `create` nor `update`.
    UnsupportedMode,
    /// `mode=update` came without a `token`.
    MissingToken,
}

impl LinkModeError {
    /// The text sent back with the refusal.
    pub fn message(&self) -> (r: String)
        ensures
            r@ == mode_error_text(*self),
    {
        match self {
            LinkModeError::UnsupportedMode => "unsupported mode argument".to_owned(),
            LinkModeError::MissingToken => "update mode must include token".to_owned(),
        }
    }
}

pub open spec fn mode_error_text(e: LinkModeError) -> Seq<char> {
    match e {
        LinkModeError::UnsupportedMode => "unsupported mode argument"@,
        LinkModeError::MissingToken => "update mode must include token"@,
    }
}

/// The decoded name and value pairs of an `application/x-www-form-urlencoded`
/// query, in order.
pub uninterp spec fn form_pairs_of(query: Seq<char>) -> Seq<(Seq<char>, Seq<char>)>;

pub open spec fn pairs_view(p: Seq<(String, String)>) -> Seq<(Seq<char>, Seq<char>)> {
    p.map_values(|x: (String, String)| (x.0@, x.1@))
}

/// Relies on `url::form_urlencoded::parse`, which splits the query at `&`
/// and `=` and percent-decodes names and values; an empty query has no
/// pairs.
#[verifier::external_body]
fn decode_query(query: &str) -> (r: Vec<(String, String)>)
    ensures
        pairs_view(r@) == form_pairs_of(query@),
        query@.len() == 0 ==> r@.len() == 0,
{
    url::form_urlencoded::parse(query.as_bytes()).into_owned().collect()
}

/// The value of the first pair named `key`.
pub open spec fn first_value(pairs: Seq<(Seq<char>, Seq<char>)>, key: Seq<char>) -> Option<Seq<char>>
    decreases pairs.len(),
{
    if pairs.len() == 0 {
        None
    } else if pairs[0].0 == key {
        Some(pairs[0].1)
    } else {
        first_value(pairs.drop_first(), key)
    }
}

/// The mode a query asks for: `create`, or no `mode` at all, is a new
/// link; `update` needs a `token`; any other mode is refused.
pub open spec fn mode_of(pairs: Seq<(Seq<char>, Seq<char>)>) -> Result<LinkModeView, LinkModeError> {
    match first_value(pairs, "mode"@) {
        None => Ok(LinkModeView::Create),
        Some(m) => if m == "create"@ {
            Ok(LinkModeView::Create)
        } else if m == "update"@ {
            match first_value(pairs, "token"@) {
                Some(t) => Ok(LinkModeView::Update(t)),
                None => Err(LinkModeError::MissingToken),
            }
        } else {
            Err(LinkModeError::UnsupportedMode)
        },
    }
}

pub open spec fn mode_result_view(r: Result<LinkMode, LinkModeError>) -> Result<LinkModeView, LinkModeError> {
    match r {
        Ok(m) => Ok(m@),
        Err(e) => Err(e),
    }
}

/// The value of the first pair named `key`.
fn find_value(pairs: &Vec<(String, String)>, key: &str) -> (r: Option<String>)
    ensures
        match r {
            Some(v) => first_value(pairs_view(pairs@), key@) == Some(v@),
            None => first_value(pairs_view(pairs@), key@) is None,
        },
{
    let ghost pv = pairs_view(pairs@);
    let k = key.to_owned();
    let mut i: usize = 0;
    proof {
        assert(pv.subrange(0, pv.len() as int) =~= pv);
    }
    while i < pairs.len()
        invariant
            pv == pairs_view(pairs@),
            k@ == key@,
            i <= pairs@.len(),
            first_value(pv, key@) == first_value(pv.subrange(i as int, pv.len() as int), key@),
        decreases pairs@.len() - i,
    {
        let p = &pairs[i];
        proof {
            let rest = pv.subrange(i as int, pv.len() as int);
            assert(rest[0] == (p.0@, p.1@));
            assert(rest.drop_first() =~= pv.subrange(i + 1, pv.len() as int));
        }
        if p.0 == k {
            return Some(p.1.clone());
        }
        i = i + 1;
    }
    None
}

impl LinkMode {
    /// The mode that decoded query pairs ask for.
    pub fn from_pairs(pairs: &Vec<(String, String)>) -> (r: Result<LinkMode, LinkModeError>)
        ensures
            mode_result_view(r) == mode_of(pairs_view(pairs@)),
    {
        proof {
            reveal_strlit("create");
            reveal_strlit("update");
        }
        match find_value(pairs, "mode") {
            None => Ok(LinkMode::Create),
            Some(m) => {
                if m == "create".to_owned() {
                    Ok(LinkMode::Create)
                } else if m == "update".to_owned() {
                    match find_value(pairs, "token") {
                        Some(t) => Ok(LinkMode::Update(t)),
                        None => Err(LinkModeError::MissingToken),
                    }
                } else {
                    Err(LinkModeError::UnsupportedMode)
                }
            },
        }
    }

    /// The mode that the query of a link request asks for; an empty query
    /// asks for a new link.
    pub fn from_query(query: &str) -> (r: Result<LinkMode, LinkModeError>)
        ensures
            mode_result_view(r) == mode_of(form_pairs_of(query@)),
            query@.len() == 0 ==> r == Ok::<LinkMode, LinkModeError>(LinkMode::Create),
    {
        let pairs = decode_query(query);
        Self::from_pairs(&pairs)
    }
}

} // verus!
