use vstd::prelude::*;

verus! {

/// Every failure that discovery or a lookup can report.
#[derive(Debug, PartialEq)]
pub enum Error {
    /// The neighbour-table query could not be run.
    FailedRunARPCommand,
    /// The pattern for IPv4 addresses did not compile.
    ExpressionRegularToIPIncorrect,
    /// The pattern for hardware addresses did not compile.
    ExpressionRegularToMACIncorrect,
    /// A line of the table holds no IPv4-shaped text.
    NotFoundIPAddress,
    NotPossibleParserDevice,
    /// A caller's hardware address is not six hexadecimal octets.
    InvalidMACAddress,
    NotFoundConnectNetwork,
    /// A line of the table holds no hardware-address-shaped text.
    NotFoundMACAddress,
    /// A caller's IP address did not parse; holds the parser's message.
    NotParserIP(String),
    /// No discovered device matches the query.
    NotFindDevice,
}

} // verus!
