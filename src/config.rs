use vstd::prelude::*;

verus! {

/// The regions that an endpoint may be configured with.
#[derive(Debug, Clone, Copy, PartialEq, Eq, Structural)]
pub enum Region {
    UsEast1,
    ApNortheast1,
    ApNortheast3,
}

/// A configuration value that cannot be used.
#[derive(Debug, Clone, Copy, PartialEq, Eq, Structural)]
pub enum ConfigError {
    /// The region name is none of the known ones.
    UnknownRegion,
}

/// The region named `s`, if it is one of the known ones.
pub open spec fn region_named(s: Seq<char>) -> Option<Region> {
    if s == "us-east-1"@ {
        Some(Region::UsEast1)
    } else if s == "ap-northeast-1"@ {
        Some(Region::ApNortheast1)
    } else if s == "ap-northeast-3"@ {
        Some(Region::ApNortheast3)
    } else {
        None
    }
}

impl Region {
    /// The region's name, as endpoints spell it.
    pub fn name(&self) -> (r: &'static str)
        ensures
            region_named(r@) == Some(*self),
    {
        proof {
            reveal_strlit("us-east-1");
            reveal_strlit("ap-northeast-1");
            reveal_strlit("ap-northeast-3");
            assert("us-east-1"@.len() != "ap-northeast-1"@.len());
            assert("us-east-1"@.len() != "ap-northeast-3"@.len());
            assert("ap-northeast-1"@[13] != "ap-northeast-3"@[13]);
        }
        match self {
            Region::UsEast1 => "us-east-1",
            Region::ApNortheast1 => "ap-northeast-1",
            Region::ApNortheast3 => "ap-northeast-3",
        }
    }
}

/// Reads a region name; one that is not known is a configuration error,
/// reported before any request is made.
pub fn parse_region(s: &str) -> (r: Result<Region, ConfigError>)
    ensures
        r matches Ok(g) ==> region_named(s@) == Some(g),
        r == Err::<Region, ConfigError>(ConfigError::UnknownRegion) <==> region_named(s@) is None,
{
    let given = s.to_owned();
    if given == "us-east-1".to_owned() {
        Ok(Region::UsEast1)
    } else if given == "ap-northeast-1".to_owned() {
        Ok(Region::ApNortheast1)
    } else if given == "ap-northeast-3".to_owned() {
        Ok(Region::ApNortheast3)
    } else {
        Err(ConfigError::UnknownRegion)
    }
}

} // verus!
