//! Client-side core of an object-storage REST protocol: request signing
//! (canonical resource selection, header canonicalization, string-to-sign
//! assembly, keyed-hash signatures), request assembly, metadata header
//! encoding, and a streaming decoder for paginated XML listing responses.
pub mod auth;
pub mod decode;
pub mod errors;
pub mod object;
pub mod oss;
pub mod params;
pub mod strutil;
pub mod utils;
pub mod xmlev;

pub use auth::{canonicalized_headers, oss_sign, oss_sign_url, sign_bytes, string_to_sign};
pub use decode::{decode_keys, decode_listing, list_details_from_xml, list_objects_from_xml};
pub use errors::{classify_status_error, Error, HttpError, ObjectError, OpKind};
pub use object::{
    DetailObjects, GetBufferedObjResponse, GetObjResponse, ListDetailsResponse, ListOptions,
    MaxKeys, PutOptions,
};
pub use oss::OSS;
pub use params::get_params_str;
pub use strutil::{i32_to_string, is_success, u64_to_string};
pub use utils::{meta_from_headers, to_meta_headers, OSS_META_PREFIX};
pub use xmlev::{read_all_events, Ev, EV_END, EV_EOF, EV_ERROR, EV_OTHER, EV_REF, EV_START, EV_TEXT};
