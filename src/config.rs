use vstd::prelude::*;

verus! {

/// Attempts made by default to find an unused random name: 2^32, or as
/// many as a `usize` holds where that is fewer.
pub open spec fn default_num_retry() -> usize {
    if usize::MAX >= 0x1_0000_0000 {
        0x1_0000_0000int as usize
    } else {
        usize::MAX
    }
}

fn default_num_retry_exec() -> (r: usize)
    ensures
        r == default_num_retry(),
{
    if usize::MAX as u64 >= 0x1_0000_0000u64 {
        0x1_0000_0000u64 as usize
    } else {
        usize::MAX
    }
}

/// Length of a random name by default.
pub const DEFAULT_RAND_FN_LEN: usize = 16;

/// Settings of random name generation. Each setting can be fixed once:
/// explicitly by its setter, or implicitly with its default the first time
/// it is read.
pub struct NameConfig {
    num_retry: Option<usize>,
    rand_fn_len: Option<usize>,
    valid_chars: Option<Vec<u8>>,
}

/// The characters a random name is drawn from by default: ASCII letters,
/// digits and the underscore.
pub open spec fn default_chars() -> Seq<u8> {
    seq![
        97u8, 98u8, 99u8, 100u8, 101u8, 102u8, 103u8, 104u8, 105u8, 106u8, 107u8, 108u8, 109u8,
        110u8, 111u8, 112u8, 113u8, 114u8, 115u8, 116u8, 117u8, 118u8, 119u8, 120u8, 121u8, 122u8,
        65u8, 66u8, 67u8, 68u8, 69u8, 70u8, 71u8, 72u8, 73u8, 74u8, 75u8, 76u8, 77u8,
        78u8, 79u8, 80u8, 81u8, 82u8, 83u8, 84u8, 85u8, 86u8, 87u8, 88u8, 89u8, 90u8,
        48u8, 49u8, 50u8, 51u8, 52u8, 53u8, 54u8, 55u8, 56u8, 57u8, 95u8,
    ]
}

fn default_chars_vec() -> (r: Vec<u8>)
    ensures
        r@ == default_chars(),
{
    let r: Vec<u8> = vec![
        97u8, 98u8, 99u8, 100u8, 101u8, 102u8, 103u8, 104u8, 105u8, 106u8, 107u8, 108u8, 109u8,
        110u8, 111u8, 112u8, 113u8, 114u8, 115u8, 116u8, 117u8, 118u8, 119u8, 120u8, 121u8, 122u8,
        65u8, 66u8, 67u8, 68u8, 69u8, 70u8, 71u8, 72u8, 73u8, 74u8, 75u8, 76u8, 77u8,
        78u8, 79u8, 80u8, 81u8, 82u8, 83u8, 84u8, 85u8, 86u8, 87u8, 88u8, 89u8, 90u8,
        48u8, 49u8, 50u8, 51u8, 52u8, 53u8, 54u8, 55u8, 56u8, 57u8, 95u8,
    ];
    assert(r@ =~= default_chars());
    r
}

impl NameConfig {
    /// A configuration with nothing fixed yet.
    pub fn new() -> (r: Self)
        ensures
            r.num_retry_setting() == None::<usize>,
            r.rand_fn_len_setting() == None::<usize>,
            r.valid_chars_setting() == None::<Seq<u8>>,
    {
        NameConfig { num_retry: None, rand_fn_len: None, valid_chars: None }
    }

    pub closed spec fn num_retry_setting(&self) -> Option<usize> {
        self.num_retry
    }

    pub closed spec fn rand_fn_len_setting(&self) -> Option<usize> {
        self.rand_fn_len
    }

    pub closed spec fn valid_chars_setting(&self) -> Option<Seq<u8>> {
        match self.valid_chars {
            Some(v) => Some(v@),
            None => None,
        }
    }

    /// The attempt budget in effect once fixed.
    pub open spec fn num_retry_value(&self) -> usize {
        match self.num_retry_setting() {
            Some(n) => n,
            None => default_num_retry(),
        }
    }

    /// The name length in effect once fixed.
    pub open spec fn rand_fn_len_value(&self) -> usize {
        match self.rand_fn_len_setting() {
            Some(n) => n,
            None => DEFAULT_RAND_FN_LEN,
        }
    }

    /// The alphabet in effect once fixed.
    pub open spec fn valid_chars_value(&self) -> Seq<u8> {
        match self.valid_chars_setting() {
            Some(v) => v,
            None => default_chars(),
        }
    }
}

/// Fixes the number of attempts made to find an unused random name.
/// Fails if that number was already fixed.
pub fn set_num_retry(cfg: &mut NameConfig, val: usize) -> (r: Result<(), &'static str>)
    ensures
        r.is_ok() == (old(cfg).num_retry_setting() is None),
        r.is_ok() ==> final(cfg).num_retry_setting() == Some(val),
        r.is_err() ==> final(cfg).num_retry_setting() == old(cfg).num_retry_setting(),
        final(cfg).rand_fn_len_setting() == old(cfg).rand_fn_len_setting(),
        final(cfg).valid_chars_setting() == old(cfg).valid_chars_setting(),
{
    if cfg.num_retry.is_some() {
        return Err("NUM_RETRY has already been set");
    }
    cfg.num_retry = Some(val);
    Ok(())
}

/// The number of attempts made to find an unused random name; fixes the
/// default if nothing was fixed yet.
pub fn num_retry(cfg: &mut NameConfig) -> (r: usize)
    ensures
        r == old(cfg).num_retry_value(),
        final(cfg).num_retry_setting() == Some(r),
        final(cfg).rand_fn_len_setting() == old(cfg).rand_fn_len_setting(),
        final(cfg).valid_chars_setting() == old(cfg).valid_chars_setting(),
{
    match cfg.num_retry {
        Some(n) => n,
        None => {
            let d = default_num_retry_exec();
            cfg.num_retry = Some(d);
            d
        },
    }
}

/// Fixes the length of random names. Fails if it was already fixed.
pub fn set_rand_fn_len(cfg: &mut NameConfig, val: usize) -> (r: Result<(), &'static str>)
    ensures
        r.is_ok() == (old(cfg).rand_fn_len_setting() is None),
        r.is_ok() ==> final(cfg).rand_fn_len_setting() == Some(val),
        r.is_err() ==> final(cfg).rand_fn_len_setting() == old(cfg).rand_fn_len_setting(),
        final(cfg).num_retry_setting() == old(cfg).num_retry_setting(),
        final(cfg).valid_chars_setting() == old(cfg).valid_chars_setting(),
{
    if cfg.rand_fn_len.is_some() {
        return Err("RAND_FN_LEN has already been set");
    }
    cfg.rand_fn_len = Some(val);
    Ok(())
}

/// The length of random names; fixes the default if nothing was fixed yet.
pub fn rand_fn_len(cfg: &mut NameConfig) -> (r: usize)
    ensures
        r == old(cfg).rand_fn_len_value(),
        final(cfg).rand_fn_len_setting() == Some(r),
        final(cfg).num_retry_setting() == old(cfg).num_retry_setting(),
        final(cfg).valid_chars_setting() == old(cfg).valid_chars_setting(),
{
    match cfg.rand_fn_len {
        Some(n) => n,
        None => {
            cfg.rand_fn_len = Some(DEFAULT_RAND_FN_LEN);
            DEFAULT_RAND_FN_LEN
        },
    }
}

/// Fixes the characters random names are drawn from. Fails if they were
/// already fixed.
pub fn set_valid_chars(cfg: &mut NameConfig, val: &[u8]) -> (r: Result<(), &'static str>)
    ensures
        r.is_ok() == (old(cfg).valid_chars_setting() is None),
        r.is_ok() ==> final(cfg).valid_chars_setting() == Some(val@),
        r.is_err() ==> final(cfg).valid_chars_setting() == old(cfg).valid_chars_setting(),
        final(cfg).num_retry_setting() == old(cfg).num_retry_setting(),
        final(cfg).rand_fn_len_setting() == old(cfg).rand_fn_len_setting(),
{
    if cfg.valid_chars.is_some() {
        return Err("VALID_CHARS has already been set");
    }
    cfg.valid_chars = Some(vstd::slice::slice_to_vec(val));
    Ok(())
}

/// The characters random names are drawn from; fixes the default if nothing
/// was fixed yet.
pub fn valid_chars(cfg: &mut NameConfig) -> (r: Vec<u8>)
    ensures
        r@ == old(cfg).valid_chars_value(),
        final(cfg).valid_chars_setting() == Some(r@),
        final(cfg).num_retry_setting() == old(cfg).num_retry_setting(),
        final(cfg).rand_fn_len_setting() == old(cfg).rand_fn_len_setting(),
{
    match &cfg.valid_chars {
        Some(v) => v.clone(),
        None => {
            let d = default_chars_vec();
            cfg.valid_chars = Some(d.clone());
            d
        },
    }
}

} // verus!
