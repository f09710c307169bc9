pub mod laws;
mod spec;
mod token;

pub use spec::{
    after, best_keyword, best_keyword_upto, blank_end, byte_offset, byte_span, folds_to,
    ident_end, is_blank, is_ident_char, is_ident_start, keyword, keyword_at, keyword_prefix_upto,
    keyword_token, lex_from, lex_step, line_end, prefix_match, quote_end, spec_tokenize,
    spec_tokenize_spanned, utf8_width, CharLex, LexFailure, Step, KEYWORD_COUNT,
};
pub use token::{string_from, string_of, token_text, Token, TokenV};
mod scan;
pub use scan::{first_views, lexed, lexed_spanned, spanned_views, token_views, tokenize, tokenize_spanned};
mod error;
pub use error::{lex_error_message, LexError};
