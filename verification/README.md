# farmap

A library to hold and analyze farcaster user data, chiefly the warpcast spam labels of
each user, with its behaviour stated in contracts and proved with Verus.

- `src/` is the verified library: calendar dates, users and their values, collections and
  subsets of users, the spam statistics of a set of users (counts by score at a date, weekly
  counts, moves between scores and their matrix), the selection of users (by first spam
  update, by score at a date, by latest score, the users that moved between two scores, and
  the users whose casts to fetch), a date iterator with a proof of what a whole run of it
  returns, the conversion of spam label lines into a collection, and the reading of the
  responses of the data sources: the commit hashes of a GitHub commit listing and the
  commit hashes still to fetch, the casts, followers and reaction times of a farcaster hub
  response, and the followers of a Wield response.
- `tests/` runs the library on concrete data.
- `app/` is the command line tool and http server around it: argument handling, reading
  files, fetching over the network, json, the clock, routing, and the floating point shares
  of users by score. It passes the texts it reads to the library and prints or serves what the
  library returns.
