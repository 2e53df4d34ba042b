//! Configuration, read from the environment once at the start.

use crate::feed::fetcher::{present, what_is_there_is_kept};
use crate::text::{
    blank, blank_texts_are_whitespace, is_blank, is_whitespace, joined, lemma_split_joined,
    opt_text, owned, pieces_part_at_separators, slices, split, split_at, texts, trim, trimmed,
};
use vstd::prelude::*;

verus! {

/// Keys and models.
#[derive(Debug, Clone, PartialEq, Eq)]
pub struct Config {
    /// The key of the data service.
    pub google_api_key: Option<String>,
    /// The key of the Gemini service.
    pub gemini_api_key: Option<String>,
    /// The Gemini model.
    pub gemini_model: String,
    /// The key of the OpenRouter service.
    pub openrouter_api_key: Option<String>,
    /// The OpenRouter models, the preferred one first. Never empty.
    pub openrouter_models: Vec<String>,
}

/// The values of the environment variables that are set.
#[derive(Debug)]
pub struct Environment {
    /// `GOOGLE_API_KEY`.
    pub google_api_key: Option<String>,
    /// `GEMINI_API_KEY`.
    pub gemini_api_key: Option<String>,
    /// `GEMINI_MODEL`.
    pub gemini_model: Option<String>,
    /// `OPENROUTER_API_KEY`.
    pub openrouter_api_key: Option<String>,
    /// `OPENROUTER_MODELS`.
    pub openrouter_models: Option<String>,
}

/// A value that is not blank.
pub open spec fn not_blank(value: Option<Seq<char>>) -> Option<Seq<char>> {
    match value {
        Some(text) => if is_blank(text) {
            None
        } else {
            Some(text)
        },
        None => None,
    }
}

/// The value of a variable, where it is set and not blank.
pub fn non_empty_env(value: Option<String>) -> (r: Option<String>)
    ensures
        opt_text(r) == not_blank(opt_text(value)),
{
    match value {
        Some(text) => if blank(text.as_str()) {
            None
        } else {
            Some(text)
        },
        None => None,
    }
}

/// A piece of the list of models, trimmed, unless it is empty.
pub open spec fn model_of(piece: Seq<char>) -> Option<Seq<char>> {
    if trimmed(piece).len() > 0 {
        Some(trimmed(piece))
    } else {
        None
    }
}

/// The models that a list names, between commas.
pub open spec fn models_in(list: Seq<char>) -> Seq<Seq<char>> {
    present(split_at(list, ',').map_values(|piece: Seq<char>| model_of(piece)))
}

/// The models that a list names, or the given ones where it names none.
pub open spec fn models_or(list: Option<Seq<char>>, default: Seq<Seq<char>>) -> Seq<Seq<char>> {
    let named = match list {
        Some(list) => models_in(list),
        None => Seq::empty(),
    };
    if named.len() == 0 {
        default
    } else {
        named
    }
}

/// The models that a list names, or the default one where it names none.
pub open spec fn models_or_default(list: Option<Seq<char>>) -> Seq<Seq<char>> {
    models_or(list, seq!["@preset/cheap"@])
}

/// The models that a list names, in order; the default one where it names none.
pub fn parse_openrouter_models(raw: Option<String>) -> (models: Vec<String>)
    ensures
        texts(models@) == models_or_default(opt_text(raw)),
{
    let default = ["@preset/cheap"];
    assert(slices(default@) =~= seq!["@preset/cheap"@]);
    parse_models(raw, &default)
}

/// The models that a list names, in order; the given ones where it names none.
pub fn parse_models(raw: Option<String>, default: &[&str]) -> (models: Vec<String>)
    ensures
        texts(models@) == models_or(opt_text(raw), slices(default@)),
{
    let mut models: Vec<String> = Vec::new();
    if let Some(list) = &raw {
        let pieces = split(list.as_str(), ',');
        let ghost all = split_at(list@, ',').map_values(|piece: Seq<char>| model_of(piece));
        let mut i: usize = 0;
        assert(texts(models@) =~= present(all.take(0)));
        while i < pieces.len()
            invariant
                i <= pieces.len(),
                texts(pieces@) == split_at(list@, ','),
                all == split_at(list@, ',').map_values(|piece: Seq<char>| model_of(piece)),
                texts(models@) == present(all.take(i as int)),
            decreases pieces.len() - i,
        {
            let ghost before = texts(models@);
            assert(all.take(i + 1).drop_last() =~= all.take(i as int));
            assert(texts(pieces@)[i as int] == pieces@[i as int]@);
            let model = trim(pieces[i].as_str());
            if !model.is_empty() {
                models.push(model.to_owned());
                assert(texts(models@) =~= before.push(model@));
            }
            i += 1;
        }
        assert(all.take(all.len() as int) =~= all);
    }
    assert(models@.len() == texts(models@).len());
    if models.len() == 0 {
        models = owned(default);
    }
    models
}

proof fn lemma_all_present(found: Seq<Option<Seq<char>>>, models: Seq<Seq<char>>)
    requires
        found.len() == models.len(),
        forall|i: int| 0 <= i < found.len() ==> #[trigger] found[i] == Some(models[i]),
    ensures
        present(found) == models,
    decreases found.len(),
{
    if found.len() > 0 {
        assert forall|i: int| 0 <= i < found.drop_last().len() implies #[trigger] found.drop_last()[i]
            == Some(models.drop_last()[i]) by {
            assert(found.drop_last()[i] == found[i]);
        }
        lemma_all_present(found.drop_last(), models.drop_last());
        assert(found[found.len() - 1] == Some(models[models.len() - 1]));
        assert(models.drop_last().push(models.last()) =~= models);
    } else {
        assert(models =~= Seq::<Seq<char>>::empty());
    }
}

/// Models that are joined with commas are read back as they were, where each is a name: not
/// empty, without a comma, and without whitespace at its ends.
pub proof fn joined_models_read_back(models: Seq<Seq<char>>, default: Seq<Seq<char>>)
    requires
        models.len() > 0,
        forall|i: int|
            0 <= i < models.len() ==> (#[trigger] models[i]).len() > 0 && !models[i].contains(',')
                && trimmed(models[i]) == models[i],
    ensures
        models_or(Some(joined(models, ","@)), default) == models,
        models_or_default(Some(joined(models, ","@))) == models,
{
    reveal_strlit(",");
    assert(","@ =~= seq![',']);
    lemma_split_joined(models, ',');
    let found = models.map_values(|piece: Seq<char>| model_of(piece));
    assert forall|i: int| 0 <= i < found.len() implies #[trigger] found[i] == Some(models[i]) by {
        assert(trimmed(models[i]) == models[i]);
    }
    lemma_all_present(found, models);
}

/// There is always a model, and none is blank.
pub proof fn there_is_always_a_model(list: Option<Seq<char>>)
    ensures
        models_or_default(list).len() > 0,
        forall|i: int|
            0 <= i < models_or_default(list).len() ==> (#[trigger] models_or_default(
                list,
            )[i]).len() > 0,
{
    reveal_strlit("@preset/cheap");
    if let Some(list) = list {
        let found = split_at(list, ',').map_values(|piece: Seq<char>| model_of(piece));
        lemma_models_nonempty(found);
    }
}

proof fn lemma_models_nonempty(found: Seq<Option<Seq<char>>>)
    requires
        forall|i: int|
            0 <= i < found.len() ==> match #[trigger] found[i] {
                Some(model) => model.len() > 0,
                None => true,
            },
    ensures
        forall|i: int| 0 <= i < present(found).len() ==> (#[trigger] present(found)[i]).len() > 0,
    decreases found.len(),
{
    if found.len() > 0 {
        assert forall|i: int| 0 <= i < found.drop_last().len() implies match #[trigger] found.drop_last()[i] {
            Some(model) => model.len() > 0,
            None => true,
        } by {
            assert(found.drop_last()[i] == found[i]);
        }
        lemma_models_nonempty(found.drop_last());
        assert(found.last() == found[found.len() - 1]);
        let before = present(found.drop_last());
        assert forall|i: int| 0 <= i < present(found).len() implies (
        #[trigger] present(found)[i]).len() > 0 by {
            assert(i < before.len() ==> present(found)[i] == before[i]);
        }
    }
}

impl Config {
    /// The configuration that the environment gives.
    pub fn from_env(environment: Environment) -> (config: Self)
        ensures
            opt_text(config.google_api_key) == not_blank(opt_text(environment.google_api_key)),
            opt_text(config.gemini_api_key) == not_blank(opt_text(environment.gemini_api_key)),
            config.gemini_model@ == match not_blank(opt_text(environment.gemini_model)) {
                Some(model) => model,
                None => "gemini-3.5-flash"@,
            },
            opt_text(config.openrouter_api_key) == not_blank(
                opt_text(environment.openrouter_api_key),
            ),
            texts(config.openrouter_models@) == models_or_default(
                not_blank(opt_text(environment.openrouter_models)),
            ),
    {
        Config {
            google_api_key: non_empty_env(environment.google_api_key),
            gemini_api_key: non_empty_env(environment.gemini_api_key),
            gemini_model: match non_empty_env(environment.gemini_model) {
                Some(model) => model,
                None => "gemini-3.5-flash".to_owned(),
            },
            openrouter_api_key: non_empty_env(environment.openrouter_api_key),
            openrouter_models: parse_openrouter_models(
                non_empty_env(environment.openrouter_models),
            ),
        }
    }
}

/// A list names models piece by piece: what stands between commas, trimmed, where anything is
/// left; the default ones count only where it names none.
pub proof fn models_come_piece_by_piece(
    a: Seq<char>,
    b: Seq<char>,
    piece: Seq<char>,
    default: Seq<Seq<char>>,
)
    requires
        !piece.contains(','),
    ensures
        models_in(a + seq![','] + b) == models_in(a) + models_in(b),
        trimmed(piece).len() > 0 ==> models_in(piece) == seq![trimmed(piece)],
        trimmed(piece).len() == 0 ==> models_in(piece).len() == 0,
        models_or(None, default) == default,
        models_in(a).len() > 0 ==> models_or(Some(a), default) == models_in(a),
        models_in(a).len() == 0 ==> models_or(Some(a), default) == default,
        models_or_default(None) == seq!["@preset/cheap"@],
        models_or_default(Some(a)) == models_or(Some(a), models_or_default(None)),
{
    let f = |piece: Seq<char>| model_of(piece);
    let none = Seq::<Option<Seq<char>>>::empty();
    pieces_part_at_separators(a, b, ',');
    pieces_part_at_separators(piece, b, ',');
    let (x, y) = (split_at(a, ','), split_at(b, ','));
    assert((x + y).map_values(f) =~= x.map_values(f) + y.map_values(f));
    what_is_there_is_kept(x.map_values(f), y.map_values(f), piece);
    what_is_there_is_kept(none, none, trimmed(piece));
    assert(seq![piece].map_values(f) =~= seq![f(piece)]);
}

/// A variable that holds nothing but whitespace counts as unset, and any other is taken as it
/// is.
pub proof fn blank_variables_count_as_unset(value: Seq<char>)
    ensures
        not_blank(None) is None,
        not_blank(Some(value)) matches Some(text) ==> text == value,
        not_blank(Some(value)) is None <==> forall|i: int|
            0 <= i < value.len() ==> is_whitespace(#[trigger] value[i]),
{
    blank_texts_are_whitespace(value);
}

} // verus!
