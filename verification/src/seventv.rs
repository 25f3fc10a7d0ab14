//! The emote catalog as the core sees it.
//!
//! Fetching the catalog is the external collaborator's business; the shell
//! hands the resulting ordered list in.  What is modelled here is the data
//! the logic reads: named, URL-bearing emotes, and the rule that picks an
//! image file out of a catalog entry's host record.

use vstd::prelude::*;
use vstd::string::StrSliceExecFns;

use crate::model::EmoteModel;

verus! {

/// One guessable emote: its name and the URL of its image.
#[derive(Debug)]
pub struct FinalEmote {
    pub name: String,
    pub url: String,
}

/// Failures of the catalog collaborator, as the core reports them.
#[derive(Clone, Copy, PartialEq, Eq, Structural, Debug)]
pub enum EmoteError {
    /// The response carried no usable body.
    ResponseError,
    /// The transport failed while fetching or decoding.
    RequestError,
    /// Anything else.
    Unknown,
}

impl FinalEmote {
    pub open spec fn model(&self) -> EmoteModel {
        EmoteModel { name: self.name@, url: self.url@ }
    }
}

/// Mathematical view of a whole catalog.
pub open spec fn catalog_model(s: Seq<FinalEmote>) -> Seq<EmoteModel> {
    s.map_values(|e: FinalEmote| e.model())
}

/// One image file of a catalog entry's host record.
#[derive(Debug)]
pub struct EmoteHostFile {
    pub name: String,
}

/// A catalog entry's host record: the base URL and the files offered.
#[derive(Debug)]
pub struct EmoteHost {
    pub url: String,
    pub files: Vec<EmoteHostFile>,
}

/// Mathematical view of a host record's file names.
pub open spec fn files_model(files: Seq<EmoteHostFile>) -> Seq<Seq<char>> {
    files.map_values(|f: EmoteHostFile| f.name@)
}

/// A file name in the largest offered scale: it starts with "4x".
pub open spec fn four_x(name: Seq<char>) -> bool {
    name.len() >= 2 && name[0] == '4' && name[1] == 'x'
}

/// A file name carrying ".gif" anywhere.
pub open spec fn gif_like(name: Seq<char>) -> bool {
    exists|i: int|
        0 <= i && i + 4 <= name.len() && #[trigger] name[i] == '.' && name[i + 1] == 'g' && name[i
            + 2] == 'i' && name[i + 3] == 'f'
}

/// The first largest-scale animated file, in offer order.
pub open spec fn first_gif_name(names: Seq<Seq<char>>) -> Option<Seq<char>>
    decreases names.len(),
{
    if names.len() == 0 {
        Option::None
    } else if four_x(names.first()) && gif_like(names.first()) {
        Option::Some(names.first())
    } else {
        first_gif_name(names.drop_first())
    }
}

/// The first largest-scale file, in offer order.
pub open spec fn first_four_x(names: Seq<Seq<char>>) -> Option<Seq<char>>
    decreases names.len(),
{
    if names.len() == 0 {
        Option::None
    } else if four_x(names.first()) {
        Option::Some(names.first())
    } else {
        first_four_x(names.drop_first())
    }
}

/// The image URL picked out of a host record: the first largest-scale
/// animated file under the host as given, else the first largest-scale
/// file under the host with an explicit scheme.
pub open spec fn chosen_url(host: Seq<char>, names: Seq<Seq<char>>) -> Seq<char> {
    match first_gif_name(names) {
        Option::Some(f) => host + "/"@ + f,
        Option::None => "https://"@ + host + "/"@ + first_four_x(names).unwrap(),
    }
}

/// Whether a file name starts with "4x".
fn is_four_x(name: &String) -> (r: bool)
    ensures
        r == four_x(name@),
{
    let s = name.as_str();
    if s.unicode_len() < 2 {
        return false;
    }
    s.get_char(0) == '4' && s.get_char(1) == 'x'
}

/// Whether a file name carries ".gif" anywhere.
fn has_gif(name: &String) -> (r: bool)
    ensures
        r == gif_like(name@),
{
    let s = name.as_str();
    let n = s.unicode_len();
    if n < 4 {
        proof {
            assert(!gif_like(name@));
        }
        return false;
    }
    let mut i: usize = 0;
    while i <= n - 4
        invariant
            n == name@.len(),
            s@ == name@,
            n >= 4,
            i <= n - 4 + 1,
            forall|j: int|
                0 <= j < i ==> !(#[trigger] name@[j] == '.' && name@[j + 1] == 'g' && name@[j + 2]
                    == 'i' && name@[j + 3] == 'f'),
        decreases n - i,
    {
        if s.get_char(i) == '.' && s.get_char(i + 1) == 'g' && s.get_char(i + 2) == 'i'
            && s.get_char(i + 3) == 'f' {
            return true;
        }
        i = i + 1;
    }
    proof {
        assert forall|j: int|
            !(0 <= j && j + 4 <= name@.len() && #[trigger] name@[j] == '.' && name@[j + 1] == 'g'
                && name@[j + 2] == 'i' && name@[j + 3] == 'f') by {
            if 0 <= j && j + 4 <= name@.len() {
                assert(j < i);
            }
        }
    }
    false
}

/// Picks the image URL out of a catalog entry's host record: the first
/// largest-scale (`4x`) animated file wins, else the first largest-scale
/// file with an explicit scheme.  At least one largest-scale file must be
/// offered.
pub fn get_emote_url(emote_data: EmoteHost) -> (r: String)
    requires
        exists|i: int|
            0 <= i < emote_data.files@.len() && four_x(#[trigger] emote_data.files@[i].name@),
    ensures
        r@ == chosen_url(emote_data.url@, files_model(emote_data.files@)),
{
    let ghost names = files_model(emote_data.files@);
    proof {
        assert(names.len() == emote_data.files@.len());
        assert(names.skip(0) =~= names);
        let w = choose|w: int|
            0 <= w < emote_data.files@.len() && four_x(#[trigger] emote_data.files@[w].name@);
        assert(names[w] == emote_data.files@[w].name@);
        assert(exists|x: int| 0 <= x < names.len() && four_x(#[trigger] names[x]));
    }
    let mut i: usize = 0;
    while i < emote_data.files.len()
        invariant
            i <= emote_data.files@.len(),
            names == files_model(emote_data.files@),
            first_gif_name(names) == first_gif_name(names.skip(i as int)),
        decreases emote_data.files@.len() - i,
    {
        proof {
            assert(names.len() == emote_data.files@.len());
            assert(names.skip(i as int).len() == names.len() - i);
            assert(names.skip(i as int).first() == names[i as int]);
            assert(names[i as int] == emote_data.files@[i as int].name@);
            assert(names.skip(i as int).drop_first() =~= names.skip(i as int + 1));
        }
        if is_four_x(&emote_data.files[i].name) && has_gif(&emote_data.files[i].name) {
            let mut r = emote_data.url.clone();
            r.append("/");
            r.append(emote_data.files[i].name.as_str());
            proof {
                assert(first_gif_name(names) == Option::Some(names[i as int]));
                assert(r@ =~= chosen_url(emote_data.url@, names));
            }
            return r;
        }
        i = i + 1;
    }
    proof {
        assert(names.skip(names.len() as int) =~= Seq::<Seq<char>>::empty());
        assert(first_gif_name(names) is None);
    }
    proof {
        assert(names.skip(0) =~= names);
    }
    let mut j: usize = 0;
    while j < emote_data.files.len()
        invariant
            j <= emote_data.files@.len(),
            names == files_model(emote_data.files@),
            first_gif_name(names) is None,
            first_four_x(names) == first_four_x(names.skip(j as int)),
            exists|x: int| 0 <= x < names.len() && four_x(#[trigger] names[x]),
            forall|x: int| 0 <= x < j ==> !four_x(#[trigger] names[x]),
        decreases emote_data.files@.len() - j,
    {
        proof {
            assert(names.len() == emote_data.files@.len());
            assert(names.skip(j as int).len() == names.len() - j);
            assert(names.skip(j as int).first() == names[j as int]);
            assert(names[j as int] == emote_data.files@[j as int].name@);
            assert(names.skip(j as int).drop_first() =~= names.skip(j as int + 1));
        }
        if is_four_x(&emote_data.files[j].name) {
            let mut r = String::new();
            r.append("https://");
            r.append(emote_data.url.as_str());
            r.append("/");
            r.append(emote_data.files[j].name.as_str());
            proof {
                assert(first_four_x(names) == Option::Some(names[j as int]));
                assert(r@ =~= chosen_url(emote_data.url@, names));
            }
            return r;
        }
        j = j + 1;
    }
    proof {
        let x = choose|x: int| 0 <= x < names.len() && four_x(#[trigger] names[x]);
        assert(!four_x(names[x]));
        assert(false);
    }
    unreached()
}

} // verus!
