use vstd::prelude::*;

verus! {

/// Where a configuration's credential lives, read from its `api_key_ref`:
/// an environment variable named after the `env:` prefix, the OS keyring,
/// an unsupported reference, or none at all. Fetching the credential is the
/// application's work; only the classification is decided here.
#[derive(Debug)]
pub enum KeyRefKind {
    Env(String),
    Keyring,
    Unsupported,
    Unset,
}

/// The reference with every leading `env:` prefix removed.
pub open spec fn env_stripped(s: Seq<char>) -> Seq<char>
    decreases s.len(),
{
    if s.len() >= 4 && s.take(4) == "env:"@ {
        env_stripped(s.skip(4))
    } else {
        s
    }
}

fn has_env_prefix(s: &str) -> (r: bool)
    ensures
        r == (s@.len() >= 4 && s@.take(4) == "env:"@),
{
    proof {
        reveal_strlit("env:");
    }
    let r = s.unicode_len() >= 4 && s.get_char(0) == 'e' && s.get_char(1) == 'n' && s.get_char(2)
        == 'v' && s.get_char(3) == ':';
    proof {
        if r {
            assert(s@.take(4) =~= "env:"@);
        } else if s@.len() >= 4 && s@.take(4) == "env:"@ {
            assert(s@[0] == "env:"@[0] && s@[1] == "env:"@[1] && s@[2] == "env:"@[2] && s@[3]
                == "env:"@[3]) by {
                assert(s@.take(4)[0] == s@[0] && s@.take(4)[1] == s@[1] && s@.take(4)[2] == s@[2]
                    && s@.take(4)[3] == s@[3]);
            }
        }
    }
    r
}

/// Classify a configuration's credential reference as the original command
/// surface reads it: an `env:` prefix — stripped repeatedly — names an
/// environment variable, the word `keyring` names the OS keyring, anything
/// else is unsupported, and an absent reference is unset.
pub fn classify_key_ref(api_key_ref: &Option<String>) -> (r: KeyRefKind)
    ensures
        match api_key_ref {
            None => r is Unset,
            Some(s) => {
                if s@.len() >= 4 && s@.take(4) == "env:"@ {
                    r matches KeyRefKind::Env(v) && v@ == env_stripped(s@)
                } else if s@ == "keyring"@ {
                    r is Keyring
                } else {
                    r is Unsupported
                }
            },
        },
{
    let s = match api_key_ref {
        Some(s) => s,
        None => {
            return KeyRefKind::Unset;
        },
    };
    if has_env_prefix(s.as_str()) {
        let mut t: &str = s.as_str();
        while has_env_prefix(t)
            invariant
                env_stripped(t@) == env_stripped(s@),
            decreases t@.len(),
        {
            let n = t.unicode_len();
            t = t.substring_char(4, n);
        }
        proof {
            assert(env_stripped(t@) == t@);
        }
        return KeyRefKind::Env(t.to_owned());
    }
    proof {
        reveal_strlit("keyring");
    }
    let is_keyring = s.as_str().unicode_len() == 7 && s.as_str().get_char(0) == 'k'
        && s.as_str().get_char(1) == 'e' && s.as_str().get_char(2) == 'y' && s.as_str().get_char(3)
        == 'r' && s.as_str().get_char(4) == 'i' && s.as_str().get_char(5) == 'n'
        && s.as_str().get_char(6) == 'g';
    if is_keyring {
        proof {
            assert(s@ =~= "keyring"@);
        }
        KeyRefKind::Keyring
    } else {
        proof {
            if s@ == "keyring"@ {
                assert(s@.len() == 7);
            }
        }
        KeyRefKind::Unsupported
    }
}

/// The keyring service name under which a configuration's credential is
/// filed: a fixed prefix followed by the configuration id's textual form,
/// which the application supplies.
pub fn keyring_service_name(config_id_text: &str) -> (r: String)
    ensures
        r@ == "localchat_api_key-"@ + config_id_text@,
{
    let mut s = String::from_str("localchat_api_key-");
    s.append(config_id_text);
    s
}

} // verus!
