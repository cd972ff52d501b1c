//! The trailers that the options of a command add to a message.

use vstd::prelude::*;
use vstd::string::StringExecFns;
use crate::text::views;

verus! {

/// An option that may be given with or without a value, any number of
/// times.
#[derive(Debug, PartialEq, Eq)]
pub struct TrailerOption {
    /// The values it was given with.
    pub values: Vec<String>,
    /// How often it was given.
    pub occurrences: usize,
}

/// The options that ask for trailers.
#[derive(Debug, PartialEq, Eq)]
pub struct TrailerOptions {
    pub sign: TrailerOption,
    pub sign_by: Vec<String>,
    pub ack: TrailerOption,
    pub ack_by: Vec<String>,
    pub review: TrailerOption,
    pub review_by: Vec<String>,
}

/// Why no trailers could be made.
#[derive(Clone, Copy, Debug, PartialEq, Eq, Structural)]
pub enum TrailerError {
    /// The name or the address of the signer is not text.
    NonUtf8Signature,
}

/// The value of a trailer that is given without one: the signer, as
/// `Name <address>`.
pub open spec fn signer(name: Seq<char>, email: Seq<char>) -> Seq<char> {
    name + " <"@ + email + ">"@
}

/// The values of the trailers that one kind of option asks for: the values
/// it was given with; the signer, where it was given more often than it
/// was given a value; and the values of its `-by` form.
pub open spec fn trailer_values(
    values: Seq<Seq<char>>,
    occurrences: nat,
    by: Seq<Seq<char>>,
    default_value: Seq<char>,
) -> Seq<Seq<char>> {
    values + if values.len() < occurrences {
        seq![default_value]
    } else {
        Seq::<Seq<char>>::empty()
    } + by
}

/// Trailers of one token, one for each value.
pub open spec fn with_token(token: Seq<char>, values: Seq<Seq<char>>) -> Seq<
    (Seq<char>, Seq<char>),
> {
    Seq::new(values.len(), |i: int| (token, values[i]))
}

/// The views of a list of trailers.
pub open spec fn trailer_views(list: Seq<(String, String)>) -> Seq<(Seq<char>, Seq<char>)> {
    Seq::new(list.len(), |i: int| (list[i].0@, list[i].1@))
}

/// The trailers that the options ask for: `Signed-off-by`, `Acked-by` and
/// `Reviewed-by`, in that order, and last the trailer that is added to
/// every message, with the signer as its value.
pub open spec fn trailers_of(
    options: &TrailerOptions,
    default_value: Seq<char>,
    autosign: Option<Seq<char>>,
) -> Seq<(Seq<char>, Seq<char>)> {
    with_token(
        "Signed-off-by"@,
        trailer_values(
            views(options.sign.values@),
            options.sign.occurrences as nat,
            views(options.sign_by@),
            default_value,
        ),
    ) + with_token(
        "Acked-by"@,
        trailer_values(
            views(options.ack.values@),
            options.ack.occurrences as nat,
            views(options.ack_by@),
            default_value,
        ),
    ) + with_token(
        "Reviewed-by"@,
        trailer_values(
            views(options.review.values@),
            options.review.occurrences as nat,
            views(options.review_by@),
            default_value,
        ),
    ) + match autosign {
        Some(token) => seq![(token, default_value)],
        None => Seq::<(Seq<char>, Seq<char>)>::empty(),
    }
}

fn push_all(out: &mut Vec<(String, String)>, token: &str, values: &Vec<String>)
    ensures
        trailer_views(final(out)@) == trailer_views(old(out)@) + with_token(token@, views(values@)),
{
    let ghost base = trailer_views(out@);
    let mut i: usize = 0;
    assert(with_token(token@, views(values@).take(0)) =~= Seq::<(Seq<char>, Seq<char>)>::empty());
    assert(base + Seq::<(Seq<char>, Seq<char>)>::empty() =~= base);
    while i < values.len()
        invariant
            i <= values.len(),
            trailer_views(out@) == base + with_token(token@, views(values@).take(i as int)),
        decreases values.len() - i,
    {
        let ghost before = trailer_views(out@);
        out.push((String::from_str(token), values[i].clone()));
        proof {
            assert(trailer_views(out@) =~= before.push((token@, values@[i as int]@)));
            assert(with_token(token@, views(values@).take(i + 1)) =~= with_token(
                token@,
                views(values@).take(i as int),
            ).push((token@, values@[i as int]@)));
        }
        i = i + 1;
    }
    assert(views(values@).take(values@.len() as int) =~= views(values@));
}

fn push_option(
    out: &mut Vec<(String, String)>,
    token: &str,
    option: &TrailerOption,
    by: &Vec<String>,
    default_value: &str,
)
    ensures
        trailer_views(final(out)@) == trailer_views(old(out)@) + with_token(
            token@,
            trailer_values(
                views(option.values@),
                option.occurrences as nat,
                views(by@),
                default_value@,
            ),
        ),
{
    let ghost base = trailer_views(out@);
    push_all(out, token, &option.values);
    let mut extra: Vec<String> = Vec::new();
    if option.values.len() < option.occurrences {
        extra.push(String::from_str(default_value));
    }
    assert(views(extra@) =~= if option.values.len() < option.occurrences {
        seq![default_value@]
    } else {
        Seq::<Seq<char>>::empty()
    });
    push_all(out, token, &extra);
    push_all(out, token, by);
    assert(trailer_views(out@) =~= base + with_token(
        token@,
        trailer_values(
            views(option.values@),
            option.occurrences as nat,
            views(by@),
            default_value@,
        ),
    ));
}

/// The trailers to add to a message, token and value, in order. Trailers
/// cannot be made without a signer whose name and address are text, even
/// where none is asked for.
pub fn add_trailers(
    options: &TrailerOptions,
    signer_name: Option<&str>,
    signer_email: Option<&str>,
    autosign: Option<&str>,
) -> (r: Result<Vec<(String, String)>, TrailerError>)
    ensures
        match r {
            Ok(list) => signer_name is Some && signer_email is Some && trailer_views(list@)
                == trailers_of(
                options,
                signer(signer_name->0@, signer_email->0@),
                match autosign {
                    Some(token) => Some(token@),
                    None => None,
                },
            ),
            Err(e) => e == TrailerError::NonUtf8Signature && (signer_name is None || signer_email
                is None),
        },
{
    let default_value = match (signer_name, signer_email) {
        (Some(name), Some(email)) => {
            let mut v = String::from_str(name);
            v.append(" <");
            v.append(email);
            v.append(">");
            v
        },
        _ => {
            return Err(TrailerError::NonUtf8Signature);
        },
    };
    let mut out: Vec<(String, String)> = Vec::new();
    assert(trailer_views(out@) =~= Seq::<(Seq<char>, Seq<char>)>::empty());
    push_option(&mut out, "Signed-off-by", &options.sign, &options.sign_by, default_value.as_str());
    push_option(&mut out, "Acked-by", &options.ack, &options.ack_by, default_value.as_str());
    push_option(
        &mut out,
        "Reviewed-by",
        &options.review,
        &options.review_by,
        default_value.as_str(),
    );
    match autosign {
        Some(token) => {
            let ghost before = trailer_views(out@);
            out.push((String::from_str(token), default_value));
            assert(trailer_views(out@) =~= before + seq![(token@, signer(
                signer_name->0@,
                signer_email->0@,
            ))]);
        },
        None => {
            assert(trailer_views(out@) + Seq::<(Seq<char>, Seq<char>)>::empty() =~= trailer_views(
                out@,
            ));
        },
    }
    Ok(out)
}

} // verus!
