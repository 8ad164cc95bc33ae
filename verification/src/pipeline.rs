//! The post-load pipeline of one request: resolve the dotted key in a
//! message tree, substitute the parameters into the template, and render
//! the styling directives.

use vstd::prelude::*;
use crate::message::{offending_segment, resolve_path, resolve_path_spec, MessageKey, MessageNode};
use crate::render::{ansi_rendered, render, spec_segments};
use crate::style::StyleError;
use crate::substitute::{substitute, substitute_spec};

verus! {

/// Why a whole translation failed.
#[derive(PartialEq, Eq, Debug)]
pub enum TranslateError {
    /// The key path did not lead to a leaf string; holds the offending
    /// segment.
    KeyNotFound { segment: String },
    /// A style directive was never closed by `)`.
    UnterminatedDirective,
    /// A `color[...]` argument named no color, index or triple.
    InvalidColorSpec,
}

/// Translate one message out of a loaded pack: walk `key` through `tree`
/// to its template, substitute `params`, and render the styling.
pub fn translate_pack(
    tree: &MessageNode,
    key: &MessageKey,
    params: &Vec<(String, String)>,
) -> (r: Result<String, TranslateError>)
    requires
        key.path@.len() >= 1,
    ensures
        match resolve_path_spec(*tree, key.path.deep_view()) {
            None => r matches Err(TranslateError::KeyNotFound { segment }) && segment@
                == offending_segment(*tree, key.path.deep_view()),
            Some(template) => {
                let substituted = substitute_spec(template, params.deep_view());
                match spec_segments(substituted) {
                    Err(StyleError::UnterminatedDirective) => r == Result::<
                        String,
                        TranslateError,
                    >::Err(TranslateError::UnterminatedDirective),
                    Err(StyleError::InvalidColorSpec) => r == Result::<
                        String,
                        TranslateError,
                    >::Err(TranslateError::InvalidColorSpec),
                    Ok(segs) => r matches Ok(s) && s@ == ansi_rendered(segs),
                }
            },
        },
{
    let template = match resolve_path(tree, key) {
        Ok(t) => t,
        Err(e) => {
            return Err(TranslateError::KeyNotFound { segment: e.segment });
        },
    };
    let substituted = substitute(template.as_str(), params);
    match render(substituted.as_str()) {
        Ok(s) => Ok(s),
        Err(StyleError::UnterminatedDirective) => Err(TranslateError::UnterminatedDirective),
        Err(StyleError::InvalidColorSpec) => Err(TranslateError::InvalidColorSpec),
    }
}

} // verus!
